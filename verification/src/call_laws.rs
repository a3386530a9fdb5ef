//! Caller and callee agree: an entry takes the arguments and the method of its call, and
//! a return gives the result that its call expects, to the coroutine that made the call.

use vstd::prelude::*;

use crate::acceptance::{accepted, witness_rows};
use crate::assignment::law_rows_show_their_records;
use crate::field::{residue, FIELD_MODULUS};
use crate::ivc_state::lemma_packed_injective;
use crate::layout::{
    width_of, COL_CALL_SP_BEFORE, COL_CALL_STACK_EXPECTED_ADDR_STRIDE_8,
    COL_CALL_STACK_EXPECTED_ARG_VALUE, COL_CALL_STACK_EXPECTED_RESULT_VALUE,
    COL_CALL_STACK_MUL_STRIDE_8, COL_CALL_STACK_POP, COL_CALL_STACK_PUSH, COL_CALL_STACK_TOP,
    COL_CALL_TARGET, COL_CURR_BEFORE, COL_METHOD_HASH_VALUE,
};
use crate::legality::acceptable;
use crate::memory::{
    cell_key, initial_stores, memory_consistent, memory_layout, read_lanes, read_port,
    stack_memories, table_words, value_of, write_lanes, write_port,
};
use crate::memory_laws::{law_reads_give_the_last_write, touches};
use crate::opcode::Opcode;
use crate::step::Wit;
use crate::trace::{MethodHash, TransactionStatement};
use crate::witness::{flag, lane, witness_row};
use vstd::arithmetic::power2::{lemma2_to64, pow2};

verus! {

/// Number of frames on the call stack before a step.
pub open spec fn depth(w: Wit) -> int {
    residue(w.call_sp_before as int) as int
}

/// Whether step `i` pushed the frame that is on top of the call stack at step `j`.
pub open spec fn frame_of(steps: Seq<Wit>, i: int, j: int) -> bool {
    &&& 0 <= i < j < steps.len()
    &&& steps[i].opcode.pushes_to_call_stack()
    &&& depth(steps[j]) == depth(steps[i]) + 1
    &&& forall|k: int|
        i < k < j && (#[trigger] steps[k]).opcode.pushes_to_call_stack() ==> depth(steps[k])
            != depth(steps[i])
}

/// The addresses of the frame that a step accesses, and its access flags.
pub(crate) proof fn lemma_frame_columns(w: Wit, h: spec_fn([u64; 4], [u64; 8]) -> [u64; 4], l: int)
    requires
        acceptable(w, h),
        0 <= l < 8,
    ensures
        0 <= depth(w) <= u32::MAX,
        value_of(witness_row(w, h), COL_CALL_STACK_PUSH) == flag(w.opcode.pushes_to_call_stack()),
        value_of(witness_row(w, h), COL_CALL_STACK_POP) == flag(w.opcode.pops_from_call_stack()),
        value_of(witness_row(w, h), COL_CALL_STACK_TOP) == flag(w.opcode.peeks_call_stack_top()),
        w.opcode.pushes_to_call_stack() ==> value_of(
            witness_row(w, h),
            (COL_CALL_STACK_MUL_STRIDE_8 + l) as usize,
        ) == 8 * depth(w) + l,
        w.opcode.pushes_to_call_stack() ==> value_of(
            witness_row(w, h),
            (COL_CALL_STACK_EXPECTED_ADDR_STRIDE_8 + l) as usize,
        ) == 8 * depth(w) + l,
        w.opcode.pops_from_call_stack() ==> value_of(
            witness_row(w, h),
            (COL_CALL_STACK_MUL_STRIDE_8 + l) as usize,
        ) == 8 * (depth(w) - 1) + l,
        w.opcode.peeks_call_stack_top() ==> value_of(
            witness_row(w, h),
            (COL_CALL_STACK_EXPECTED_ADDR_STRIDE_8 + l) as usize,
        ) == 8 * (depth(w) - 1) + l,
{
    reveal(acceptable);
    let z = witness_row(w, h);
    law_rows_show_their_records(w, h);
    lemma2_to64();
    assert(z[COL_CALL_SP_BEFORE as int] == w.call_sp_before);
    assert(z[COL_CALL_SP_BEFORE as int] < pow2(width_of(COL_CALL_SP_BEFORE as int)));
    let p = FIELD_MODULUS as nat;
    vstd::arithmetic::div_mod::lemma_small_mod(w.call_sp_before as nat, p);
    let d = depth(w);
    vstd::arithmetic::div_mod::lemma_small_mod((8 * d + l) as nat, p);
    if d > 0 {
        vstd::arithmetic::div_mod::lemma_small_mod((8 * (d - 1) + l) as nat, p);
    }
    let top = flag(w.opcode.peeks_call_stack_top());
    let pop = flag(w.opcode.pops_from_call_stack());
    assert(value_of(z, (COL_CALL_STACK_MUL_STRIDE_8 + l) as usize) == residue(
        8 * (d - (top + pop)) + l,
    ));
    assert(value_of(z, (COL_CALL_STACK_EXPECTED_ADDR_STRIDE_8 + l) as usize) == residue(
        8 * (d - top) + l,
    ));
}

/// Whether a memory of eight lanes is written at a push and read elsewhere, at addresses
/// and with values from eight columns each.
pub(crate) open spec fn is_lane_memory(m: int, gate: usize, address: usize, value: usize) -> bool {
    &&& 0 <= m < memory_layout().len()
    &&& memory_layout()[m].ports == write_lanes(COL_CALL_STACK_PUSH, address, value) + read_lanes(
        gate,
        address,
        value,
    )
    &&& address == COL_CALL_STACK_MUL_STRIDE_8 || address == COL_CALL_STACK_EXPECTED_ADDR_STRIDE_8
}

/// A step that pushes no frame at a depth does not write the cells of that frame.
pub(crate) proof fn lemma_untouched(
    w: Wit,
    h: spec_fn([u64; 4], [u64; 8]) -> [u64; 4],
    m: int,
    gate: usize,
    address: usize,
    value: usize,
    d: int,
    l: int,
    from: int,
)
    requires
        acceptable(w, h),
        is_lane_memory(m, gate, address, value),
        0 <= d <= u32::MAX,
        0 <= l < 8,
        0 <= from,
        !(w.opcode.pushes_to_call_stack() && depth(w) == d) || from > l,
    ensures
        !touches(
            memory_layout()[m].ports,
            witness_row(w, h),
            cell_key(0, (8 * d + l) as u64),
            from,
        ),
{
    let z = witness_row(w, h);
    let ports = memory_layout()[m].ports;
    assert forall|q: int| from <= q < ports.len() implies !((#[trigger] ports[q]).active(z)
        && ports[q].kind is Write && ports[q].key(z) == cell_key(0, (8 * d + l) as u64)) by {
        if q < 8 {
            lemma_frame_columns(w, h, q);
            assert(ports[q] == write_port(
                COL_CALL_STACK_PUSH,
                (address + q) as usize,
                (value + q) as usize,
                None,
            ));
        } else {
            assert(ports[q] == read_port(
                gate,
                (address + (q - 8)) as usize,
                (value + (q - 8)) as usize,
            ));
        }
    }
}

/// A step reads in a lane what the step that pushed its frame wrote.
proof fn lemma_lane_agrees(
    steps: Seq<Wit>,
    h: spec_fn([u64; 4], [u64; 8]) -> [u64; 4],
    words: Seq<u64>,
    m: int,
    gate: usize,
    address: usize,
    value: usize,
    i: int,
    j: int,
    l: int,
)
    requires
        forall|k: int| 0 <= k < steps.len() ==> #[trigger] acceptable(steps[k], h),
        memory_consistent(
            memory_layout(),
            witness_rows(steps, h),
            initial_stores(memory_layout(), words),
        ),
        is_lane_memory(m, gate, address, value),
        frame_of(steps, i, j),
        0 <= l < 8,
        value_of(witness_row(steps[j], h), gate) != 0,
        value_of(witness_row(steps[j], h), (address + l) as usize) == 8 * (depth(steps[j]) - 1) + l,
        !steps[j].opcode.pushes_to_call_stack(),
    ensures
        value_of(witness_row(steps[j], h), (value + l) as usize) == value_of(
            witness_row(steps[i], h),
            (value + l) as usize,
        ),
{
    let rows = witness_rows(steps, h);
    let ports = memory_layout()[m].ports;
    let d = depth(steps[i]);
    let key = cell_key(0, (8 * d + l) as u64);
    assert(acceptable(steps[i], h));
    assert(acceptable(steps[j], h));
    lemma_frame_columns(steps[i], h, l);
    lemma_frame_columns(steps[j], h, l);
    assert(ports[l] == write_port(
        COL_CALL_STACK_PUSH,
        (address + l) as usize,
        (value + l) as usize,
        None,
    ));
    assert(ports[8 + l] == read_port(gate, (address + l) as usize, (value + l) as usize));
    assert(ports[l].key(rows[i]) == key);
    assert(ports[8 + l].key(rows[j]) == key);
    lemma_untouched(steps[i], h, m, gate, address, value, d, l, l + 1);
    lemma_untouched(steps[j], h, m, gate, address, value, d, l, 0);
    assert forall|k: int| i < k < j implies !touches(ports, #[trigger] rows[k], key, 0) by {
        assert(acceptable(steps[k], h));
        lemma_untouched(steps[k], h, m, gate, address, value, d, l, 0);
    }
    law_reads_give_the_last_write(
        memory_layout(),
        rows,
        initial_stores(memory_layout(), words),
        m,
        i,
        l,
        j,
        8 + l,
    );
}

/// The lanes of a row in range are those of its record.
pub(crate) proof fn lemma_lane_values(w: Wit, h: spec_fn([u64; 4], [u64; 8]) -> [u64; 4], l: int)
    requires
        acceptable(w, h),
        0 <= l < 8,
    ensures
        value_of(witness_row(w, h), (COL_CALL_STACK_EXPECTED_ARG_VALUE + l) as usize) == lane(
            w.expected_arguments,
            l,
        ),
        value_of(witness_row(w, h), (COL_CALL_STACK_EXPECTED_RESULT_VALUE + l) as usize) == lane(
            w.expected_result,
            l,
        ),
        value_of(witness_row(w, h), (COL_METHOD_HASH_VALUE + l) as usize) == lane(
            w.method_hash,
            l,
        ),
{
    reveal(acceptable);
    let z = witness_row(w, h);
    let p = FIELD_MODULUS as nat;
    lemma2_to64();
    assert(z[COL_CALL_STACK_EXPECTED_ARG_VALUE + l] == lane(w.expected_arguments, l));
    assert(z[COL_CALL_STACK_EXPECTED_RESULT_VALUE + l] == lane(w.expected_result, l));
    assert(z[COL_METHOD_HASH_VALUE + l] == lane(w.method_hash, l));
    vstd::arithmetic::div_mod::lemma_small_mod(lane(w.expected_arguments, l) as nat, p);
    vstd::arithmetic::div_mod::lemma_small_mod(lane(w.expected_result, l) as nat, p);
    vstd::arithmetic::div_mod::lemma_small_mod(lane(w.method_hash, l) as nat, p);
}

/// The entry of a constructor or a method takes the arguments and the method of the call
/// that pushed its frame.
pub proof fn law_entries_match_their_calls(
    steps: Seq<Wit>,
    table: Seq<MethodHash>,
    expected: Option<Map<u32, [u64; 4]>>,
    statement: Option<TransactionStatement>,
    h: spec_fn([u64; 4], [u64; 8]) -> [u64; 4],
    i: int,
    j: int,
    l: int,
)
    requires
        accepted(steps, table, expected, statement, h),
        frame_of(steps, i, j),
        steps[j].opcode.peeks_call_stack_top(),
        0 <= l < 8,
    ensures
        lane(steps[j].expected_arguments, l) == lane(steps[i].expected_arguments, l),
        lane(steps[j].method_hash, l) == lane(steps[i].method_hash, l),
{
    let address = COL_CALL_STACK_EXPECTED_ADDR_STRIDE_8;
    let arguments = COL_CALL_STACK_EXPECTED_ARG_VALUE;
    let gate = COL_CALL_STACK_TOP;
    let words = table_words(table);
    assert(acceptable(steps[i], h));
    assert(acceptable(steps[j], h));
    lemma_frame_columns(steps[j], h, l);
    assert(memory_layout()[1] == stack_memories()[1]);
    assert(memory_layout()[3] == stack_memories()[3]);
    lemma_lane_agrees(steps, h, words, 1, gate, address, arguments, i, j, l);
    lemma_lane_agrees(steps, h, words, 3, gate, address, COL_METHOD_HASH_VALUE, i, j, l);
    lemma_lane_values(steps[i], h, l);
    lemma_lane_values(steps[j], h, l);
}

/// A return gives the result that the call that pushed its frame expects.
pub proof fn law_returns_match_their_calls(
    steps: Seq<Wit>,
    table: Seq<MethodHash>,
    expected: Option<Map<u32, [u64; 4]>>,
    statement: Option<TransactionStatement>,
    h: spec_fn([u64; 4], [u64; 8]) -> [u64; 4],
    i: int,
    j: int,
    l: int,
)
    requires
        accepted(steps, table, expected, statement, h),
        frame_of(steps, i, j),
        steps[j].opcode == Opcode::Return,
        0 <= l < 8,
    ensures
        lane(steps[j].expected_result, l) == lane(steps[i].expected_result, l),
{
    let result = COL_CALL_STACK_EXPECTED_RESULT_VALUE;
    assert(acceptable(steps[i], h));
    assert(acceptable(steps[j], h));
    lemma_frame_columns(steps[j], h, l);
    assert(memory_layout()[2] == stack_memories()[2]);
    lemma_lane_agrees(
        steps,
        h,
        table_words(table),
        2,
        COL_CALL_STACK_POP,
        COL_CALL_STACK_MUL_STRIDE_8,
        result,
        i,
        j,
        l,
    );
    lemma_lane_values(steps[i], h, l);
    lemma_lane_values(steps[j], h, l);
}

/// The ports of the memory of callers.
pub(crate) proof fn lemma_caller_ports()
    ensures
        memory_layout().len() > 0,
        memory_layout()[0].ports.len() == 2,
        memory_layout()[0].ports[0] == write_port(
            COL_CALL_STACK_PUSH,
            COL_CALL_STACK_MUL_STRIDE_8,
            COL_CURR_BEFORE,
            None,
        ),
        memory_layout()[0].ports[1] == read_port(
            COL_CALL_STACK_POP,
            COL_CALL_STACK_MUL_STRIDE_8,
            COL_CALL_TARGET,
        ),
{
    assert(memory_layout()[0] == stack_memories()[0]);
}

/// A step that pushes no frame at a depth does not write the caller of that frame.
pub(crate) proof fn lemma_caller_untouched(
    w: Wit,
    h: spec_fn([u64; 4], [u64; 8]) -> [u64; 4],
    d: int,
    from: int,
)
    requires
        acceptable(w, h),
        0 <= d <= u32::MAX,
        0 <= from,
        !(w.opcode.pushes_to_call_stack() && depth(w) == d) || from > 0,
    ensures
        !touches(memory_layout()[0].ports, witness_row(w, h), cell_key(0, (8 * d) as u64), from),
{
    let z = witness_row(w, h);
    let ports = memory_layout()[0].ports;
    lemma_caller_ports();
    lemma_frame_columns(w, h, 0);
    assert forall|q: int| from <= q < ports.len() implies !((#[trigger] ports[q]).active(z)
        && ports[q].kind is Write && ports[q].key(z) == cell_key(0, (8 * d) as u64)) by {}
}

/// The columns of control of an acceptable step.
pub(crate) proof fn lemma_turn_columns(w: Wit, h: spec_fn([u64; 4], [u64; 8]) -> [u64; 4])
    requires
        acceptable(w, h),
    ensures
        value_of(witness_row(w, h), COL_CURR_BEFORE) == w.curr_before.packed(),
        value_of(witness_row(w, h), COL_CALL_TARGET) == w.call_target.packed(),
        w.opcode == Opcode::Return ==> w.curr_after == w.call_target,
{
    reveal(acceptable);
    law_rows_show_their_records(w, h);
}

/// A return goes back to the coroutine that made the call that pushed its frame.
pub proof fn law_returns_go_to_the_caller(
    steps: Seq<Wit>,
    table: Seq<MethodHash>,
    expected: Option<Map<u32, [u64; 4]>>,
    statement: Option<TransactionStatement>,
    h: spec_fn([u64; 4], [u64; 8]) -> [u64; 4],
    i: int,
    j: int,
)
    requires
        accepted(steps, table, expected, statement, h),
        frame_of(steps, i, j),
        steps[j].opcode == Opcode::Return,
    ensures
        steps[j].curr_after == steps[i].curr_before,
{
    let rows = witness_rows(steps, h);
    let ports = memory_layout()[0].ports;
    let d = depth(steps[i]);
    let key = cell_key(0, (8 * d) as u64);
    lemma_caller_ports();
    assert(acceptable(steps[i], h));
    assert(acceptable(steps[j], h));
    lemma_frame_columns(steps[i], h, 0);
    lemma_frame_columns(steps[j], h, 0);
    lemma_caller_untouched(steps[i], h, d, 1);
    lemma_caller_untouched(steps[j], h, d, 0);
    assert forall|k: int| i < k < j implies !touches(ports, #[trigger] rows[k], key, 0) by {
        assert(acceptable(steps[k], h));
        lemma_caller_untouched(steps[k], h, d, 0);
    }
    law_reads_give_the_last_write(
        memory_layout(),
        rows,
        initial_stores(memory_layout(), table_words(table)),
        0,
        i,
        0,
        j,
        1,
    );
    lemma_turn_columns(steps[i], h);
    lemma_turn_columns(steps[j], h);
    lemma_packed_injective(steps[j].call_target, steps[i].curr_before);
}

} // verus!
