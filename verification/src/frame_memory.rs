//! What the memories of the call stack hold, and when their accesses agree.

use vstd::prelude::*;

use crate::acceptance::witness_rows;
use crate::call_laws::{
    depth, is_lane_memory, lemma_caller_ports, lemma_caller_untouched, lemma_frame_columns,
    lemma_lane_values, lemma_turn_columns, lemma_untouched,
};
use crate::field::residue;
use crate::ivc_state::{CoroutineId, CurrPhase, TxPhase};
use crate::layout::{
    COL_CALL_STACK_EXPECTED_ADDR_STRIDE_8, COL_CALL_STACK_EXPECTED_ARG_VALUE,
    COL_CALL_STACK_EXPECTED_RESULT_VALUE, COL_CALL_STACK_MUL_STRIDE_8, COL_CALL_STACK_POP,
    COL_CALL_STACK_PUSH, COL_CALL_STACK_TOP, COL_METHOD_HASH_VALUE,
};
use crate::legality::acceptable;
use crate::memory::{
    after_ports, after_rows, cell_key, held, initial_stores, memory_layout, read_port, row_agrees,
    stack_memories, write_port, Store,
};
use crate::memory_laws::{lemma_quiet_ports, lemma_untouched_ports, lemma_written};
use crate::opcode::Opcode;
use crate::step::{method_limbs, replay, state_after, value_limbs, Wit};
use crate::trace::{high_half, low_half, MethodHash, StarstreamValue, Step};
use crate::witness::{lane, witness_row};

verus! {

/// A frame of the call stack: who made the call, what was passed, and the result that the
/// caller expects. A constructor has no method and no result.
pub struct Frame {
    pub caller: CoroutineId,
    pub arguments: StarstreamValue,
    pub method: Option<MethodHash>,
    pub result: StarstreamValue,
}

/// The frames on the call stack after the first `n` steps, innermost last. The first one
/// is that of the coordinator that starts.
pub open spec fn frames(
    steps: Seq<Step>,
    phase: TxPhase,
    h: spec_fn([u64; 4], [u64; 8]) -> [u64; 4],
    n: int,
) -> Seq<Frame>
    decreases n,
{
    let unit = StarstreamValue([0, 0, 0, 0]);
    if n <= 0 {
        seq![Frame { caller: CoroutineId::Coord(0), arguments: unit, method: None, result: unit }]
    } else {
        let before = frames(steps, phase, h, n - 1);
        let caller = state_after(steps, phase, h, n - 1).curr;
        match steps[n - 1] {
            Step::NewUtxo { arguments, .. } => before.push(
                Frame { caller, arguments, method: None, result: unit },
            ),
            Step::CallMethod { method, arguments, result, .. } => before.push(
                Frame { caller, arguments, method: Some(method), result: result.0 },
            ),
            Step::Return { .. } => before.drop_last(),
            _ => before,
        }
    }
}

/// Whether a step takes what was passed to it: an entry the arguments and the method of its
/// call, and a return the result that the call expects.
pub open spec fn takes_what_was_passed(
    steps: Seq<Step>,
    phase: TxPhase,
    h: spec_fn([u64; 4], [u64; 8]) -> [u64; 4],
    j: int,
) -> bool {
    let top = frames(steps, phase, h, j).last();
    match steps[j] {
        Step::EnterConstructor { arguments } => arguments == top.arguments,
        Step::EnterMethod { method, arguments } => arguments == top.arguments && top.method
            == Some(method),
        Step::Return { result } => result.0 == top.result,
        _ => true,
    }
}

/// Whether every step keeps the rules of a single step.
pub open spec fn all_acceptable(
    steps: Seq<Step>,
    phase: TxPhase,
    h: spec_fn([u64; 4], [u64; 8]) -> [u64; 4],
) -> bool {
    forall|i: int| 0 <= i < steps.len() ==> #[trigger] acceptable(replay(steps, phase, h)[i], h)
}

/// What the rules say of a step about the call stack.
proof fn lemma_stack_rules(w: Wit, h: spec_fn([u64; 4], [u64; 8]) -> [u64; 4])
    requires
        acceptable(w, h),
    ensures
        w.opcode.is_execution() ==> depth(w) > 0,
        w.opcode.pushes_to_call_stack() ==> residue(w.call_sp_after as int) == depth(w) + 1,
        w.opcode.pops_from_call_stack() ==> residue(w.call_sp_after as int) + 1 == depth(w),
        w.opcode == Opcode::EnterMethod ==> w.curr_phase_before == CurrPhase::MethodEnterPending,
        w.opcode == Opcode::EnterConstructor ==> w.curr_phase_before
            == CurrPhase::CtorEnterPending,
        0 <= depth(w) <= u32::MAX,
{
    reveal(acceptable);
    lemma_frame_columns(w, h, 0);
}

/// The stack pointer counts the frames, the callers are those of the replay, and a pending
/// entry finds the frame of its call.
pub(crate) proof fn lemma_frames(
    steps: Seq<Step>,
    phase: TxPhase,
    h: spec_fn([u64; 4], [u64; 8]) -> [u64; 4],
    n: int,
)
    requires
        0 <= n <= steps.len() <= u32::MAX,
        all_acceptable(steps, phase, h),
    ensures
        residue(state_after(steps, phase, h, n).call_sp as int) == frames(
            steps,
            phase,
            h,
            n,
        ).len(),
        state_after(steps, phase, h, n).callers.len() == frames(steps, phase, h, n).len(),
        forall|d: int|
            0 <= d < frames(steps, phase, h, n).len() ==> (#[trigger] frames(
                steps,
                phase,
                h,
                n,
            )[d]).caller == state_after(steps, phase, h, n).callers[d],
        state_after(steps, phase, h, n).curr_phase == CurrPhase::MethodEnterPending ==> frames(
            steps,
            phase,
            h,
            n,
        ).len() > 0 && frames(steps, phase, h, n).last().method is Some,
        state_after(steps, phase, h, n).curr_phase == CurrPhase::CtorEnterPending ==> frames(
            steps,
            phase,
            h,
            n,
        ).len() > 0 && frames(steps, phase, h, n).last().method is None,
    decreases n,
{
    if n > 0 {
        lemma_frames(steps, phase, h, n - 1);
        let w = replay(steps, phase, h)[n - 1];
        let before = state_after(steps, phase, h, n - 1);
        let after = state_after(steps, phase, h, n);
        assert(acceptable(w, h));
        lemma_stack_rules(w, h);
        assert(w.opcode == Opcode::of_step(steps[n - 1]));
        assert(w.call_sp_after == after.call_sp);
        assert(depth(w) == residue(before.call_sp as int));
    } else {
        vstd::arithmetic::div_mod::lemma_small_mod(1, crate::field::FIELD_MODULUS as nat);
    }
}

/// What memory `m` of the call stack holds of a frame.
spec fn frame_lane(frame: Frame, m: int, l: int) -> u64 {
    if m == 1 {
        value_limbs(frame.arguments)[l]
    } else if m == 2 {
        value_limbs(frame.result)[l]
    } else {
        lane(
            match frame.method {
                Some(method) => Some(method_limbs(method)),
                None => None,
            },
            l,
        )
    }
}

/// What a record has for memory `m` of the call stack.
spec fn record_lane(w: Wit, m: int, l: int) -> u64 {
    if m == 1 {
        lane(w.expected_arguments, l)
    } else if m == 2 {
        lane(w.expected_result, l)
    } else {
        lane(w.method_hash, l)
    }
}

/// Column that opens the reads of memory `m` of the call stack.
spec fn gate_of(m: int) -> usize {
    if m == 2 {
        COL_CALL_STACK_POP
    } else {
        COL_CALL_STACK_TOP
    }
}

spec fn address_of(m: int) -> usize {
    if m == 2 {
        COL_CALL_STACK_MUL_STRIDE_8
    } else {
        COL_CALL_STACK_EXPECTED_ADDR_STRIDE_8
    }
}

spec fn value_column_of(m: int) -> usize {
    if m == 1 {
        COL_CALL_STACK_EXPECTED_ARG_VALUE
    } else if m == 2 {
        COL_CALL_STACK_EXPECTED_RESULT_VALUE
    } else {
        COL_METHOD_HASH_VALUE
    }
}

/// Whether a step reads memory `m` of the call stack.
spec fn reads_lanes(op: Opcode, m: int) -> bool {
    if m == 2 {
        op.pops_from_call_stack()
    } else {
        op.peeks_call_stack_top()
    }
}

proof fn lemma_lane_memory(m: int)
    requires
        1 <= m <= 3,
    ensures
        is_lane_memory(m, gate_of(m), address_of(m), value_column_of(m)),
        memory_layout()[m].ports.len() == 16,
{
    assert(memory_layout()[m] == stack_memories()[m]);
}

/// The ports of memory `m` of the call stack.
proof fn lemma_lane_ports(m: int, l: int)
    requires
        1 <= m <= 3,
        0 <= l < 8,
    ensures
        memory_layout()[m].ports[l] == write_port(
            COL_CALL_STACK_PUSH,
            (address_of(m) + l) as usize,
            (value_column_of(m) + l) as usize,
            None,
        ),
        memory_layout()[m].ports[8 + l] == read_port(
            gate_of(m),
            (address_of(m) + l) as usize,
            (value_column_of(m) + l) as usize,
        ),
{
    lemma_lane_memory(m);
}

/// What one step leaves in the cells of a frame.
proof fn lemma_lane_after(
    w: Wit,
    h: spec_fn([u64; 4], [u64; 8]) -> [u64; 4],
    store: Store,
    m: int,
    d: int,
    l: int,
)
    requires
        acceptable(w, h),
        1 <= m <= 3,
        0 <= d <= u32::MAX,
        0 <= l < 8,
    ensures
        held(
            after_ports(memory_layout()[m].ports, witness_row(w, h), store, 16),
            cell_key(0, (8 * d + l) as u64),
        ) == if w.opcode.pushes_to_call_stack() && depth(w) == d {
            record_lane(w, m, l)
        } else {
            held(store, cell_key(0, (8 * d + l) as u64))
        },
{
    let z = witness_row(w, h);
    let ports = memory_layout()[m].ports;
    let key = cell_key(0, (8 * d + l) as u64);
    lemma_lane_memory(m);
    lemma_lane_ports(m, l);
    lemma_frame_columns(w, h, l);
    lemma_lane_values(w, h, l);
    if w.opcode.pushes_to_call_stack() && depth(w) == d {
        assert(ports[l].key(z) == key);
        lemma_untouched(w, h, m, gate_of(m), address_of(m), value_column_of(m), d, l, l + 1);
        lemma_written(ports, z, store, l);
    } else {
        lemma_untouched(w, h, m, gate_of(m), address_of(m), value_column_of(m), d, l, 0);
        assert forall|q: int| 0 <= q < 16 implies !((#[trigger] ports[q]).active(z)
            && ports[q].kind is Write && ports[q].key(z) == key) by {}
        lemma_untouched_ports(ports, z, store, key, 0, 16);
    }
}

/// Whether the frames after a step are those before it, with one more where it calls.
spec fn stacked(w: Wit, before: Seq<Frame>, after: Seq<Frame>) -> bool {
    &&& depth(w) == before.len()
    &&& before.len() <= u32::MAX
    &&& forall|d: int|
        0 <= d < after.len() && !(w.opcode.pushes_to_call_stack() && d == before.len()) ==> d
            < before.len() && #[trigger] after[d] == before[d]
    &&& w.opcode.pushes_to_call_stack() ==> after.len() == before.len() + 1
        && after.last().caller == w.curr_before
    &&& w.opcode.pushes_to_call_stack() ==> forall|m: int, l: int|
        1 <= m <= 3 && 0 <= l < 8 ==> #[trigger] frame_lane(after.last(), m, l) == record_lane(
            w,
            m,
            l,
        )
}

/// What one step does to the frames.
proof fn lemma_stacked(
    steps: Seq<Step>,
    phase: TxPhase,
    h: spec_fn([u64; 4], [u64; 8]) -> [u64; 4],
    n: int,
)
    requires
        0 <= n < steps.len() <= u32::MAX,
        all_acceptable(steps, phase, h),
    ensures
        stacked(
            replay(steps, phase, h)[n],
            frames(steps, phase, h, n),
            frames(steps, phase, h, n + 1),
        ),
{
    let w = replay(steps, phase, h)[n];
    assert(acceptable(w, h));
    lemma_stack_rules(w, h);
    lemma_frames(steps, phase, h, n);
    assert(w.opcode == Opcode::of_step(steps[n]));
}

/// A memory of the call stack starts empty, and the first frame holds nothing.
proof fn lemma_lanes_start(
    steps: Seq<Step>,
    phase: TxPhase,
    h: spec_fn([u64; 4], [u64; 8]) -> [u64; 4],
    words: Seq<u64>,
    m: int,
    l: int,
)
    requires
        1 <= m <= 3,
        0 <= l < 8,
    ensures
        initial_stores(memory_layout(), words)[m] == Map::<u128, u64>::empty(),
        frames(steps, phase, h, 0).len() == 1,
        frame_lane(frames(steps, phase, h, 0)[0], m, l) == 0,
{
    assert(memory_layout()[m] == stack_memories()[m]);
}

/// The memories of the call stack hold the frames, where they start with them.
proof fn lemma_lanes_held(
    records: Seq<Wit>,
    stacks: Seq<Seq<Frame>>,
    h: spec_fn([u64; 4], [u64; 8]) -> [u64; 4],
    initial: Store,
    m: int,
    n: int,
    d: int,
    l: int,
)
    requires
        forall|i: int| 0 <= i < records.len() ==> #[trigger] acceptable(records[i], h),
        stacks.len() == records.len() + 1,
        forall|i: int|
            0 <= i < records.len() ==> stacked(
                #[trigger] records[i],
                stacks[i],
                stacks[i + 1],
            ),
        forall|k: int|
            0 <= k < stacks[0].len() ==> held(initial, cell_key(0, (8 * k + l) as u64))
                == #[trigger] frame_lane(stacks[0][k], m, l),
        1 <= m <= 3,
        0 <= n <= records.len(),
        0 <= d < stacks[n].len(),
        0 <= l < 8,
    ensures
        held(
            after_rows(memory_layout()[m].ports, witness_rows(records, h), initial, n),
            cell_key(0, (8 * d + l) as u64),
        ) == frame_lane(stacks[n][d], m, l),
    decreases n,
{
    let rows = witness_rows(records, h);
    let ports = memory_layout()[m].ports;
    if n > 0 {
        let w = records[n - 1];
        let store = after_rows(ports, rows, initial, n - 1);
        assert(acceptable(w, h));
        assert(stacked(w, stacks[n - 1], stacks[n]));
        lemma_lane_memory(m);
        if w.opcode.pushes_to_call_stack() && d == stacks[n - 1].len() {
            assert(frame_lane(stacks[n].last(), m, l) == record_lane(w, m, l));
        } else {
            assert(stacks[n][d] == stacks[n - 1][d]);
            lemma_lanes_held(records, stacks, h, initial, m, n - 1, d, l);
        }
        lemma_lane_after(w, h, store, m, d, l);
        assert(after_rows(ports, rows, initial, n) == after_ports(ports, rows[n - 1], store, 16));
    } else {
        assert(frame_lane(stacks[0][d], m, l) == held(initial, cell_key(0, (8 * d + l) as u64)));
    }
}

/// When one step agrees with a memory of the call stack.
proof fn lemma_lanes_agree(
    w: Wit,
    h: spec_fn([u64; 4], [u64; 8]) -> [u64; 4],
    store: Store,
    m: int,
)
    requires
        acceptable(w, h),
        1 <= m <= 3,
    ensures
        ({
            let ports = memory_layout()[m].ports;
            let z = witness_row(w, h);
            (forall|p: int|
                0 <= p < ports.len() ==> (#[trigger] ports[p]).agrees(
                    z,
                    after_ports(ports, z, store, p),
                )) <==> (reads_lanes(w.opcode, m) ==> forall|l: int|
                0 <= l < 8 ==> #[trigger] record_lane(w, m, l) == held(
                    store,
                    cell_key(0, (8 * (depth(w) - 1) + l) as u64),
                ))
        }),
{
    let ports = memory_layout()[m].ports;
    let z = witness_row(w, h);
    lemma_lane_memory(m);
    assert forall|l: int| 0 <= l < 8 implies #[trigger] ports[8 + l].agrees(
        z,
        after_ports(ports, z, store, 8 + l),
    ) == (reads_lanes(w.opcode, m) ==> record_lane(w, m, l) == held(
        store,
        cell_key(0, (8 * (depth(w) - 1) + l) as u64),
    )) by {
        lemma_lane_ports(m, l);
        lemma_frame_columns(w, h, l);
        lemma_lane_values(w, h, l);
        if reads_lanes(w.opcode, m) {
            assert forall|q: int| 0 <= q < 8 + l implies !((#[trigger] ports[q]).active(z)
                && ports[q].kind is Write) by {
                if q < 8 {
                    lemma_lane_ports(m, q);
                } else {
                    lemma_lane_ports(m, q - 8);
                }
            }
            lemma_quiet_ports(ports, z, store, 8 + l);
        }
    }
    assert forall|p: int| 0 <= p < 8 implies (#[trigger] ports[p]).agrees(
        z,
        after_ports(ports, z, store, p),
    ) by {
        lemma_lane_ports(m, p);
    }
    let agreed = forall|p: int|
        0 <= p < ports.len() ==> (#[trigger] ports[p]).agrees(z, after_ports(ports, z, store, p));
    let same = reads_lanes(w.opcode, m) ==> forall|l: int|
        0 <= l < 8 ==> #[trigger] record_lane(w, m, l) == held(
            store,
            cell_key(0, (8 * (depth(w) - 1) + l) as u64),
        );
    if agreed && reads_lanes(w.opcode, m) {
        assert forall|l: int| 0 <= l < 8 implies #[trigger] record_lane(w, m, l) == held(
            store,
            cell_key(0, (8 * (depth(w) - 1) + l) as u64),
        ) by {
            assert(ports[8 + l].agrees(z, after_ports(ports, z, store, 8 + l)));
        }
    }
    if same {
        assert forall|p: int| 0 <= p < ports.len() implies (#[trigger] ports[p]).agrees(
            z,
            after_ports(ports, z, store, p),
        ) by {
            if p >= 8 {
                let l = p - 8;
                assert(reads_lanes(w.opcode, m) ==> record_lane(w, m, l) == held(
                    store,
                    cell_key(0, (8 * (depth(w) - 1) + l) as u64),
                ));
                assert(ports[8 + l].agrees(z, after_ports(ports, z, store, 8 + l)));
            }
        }
    }
}

/// Whether a step finds in the innermost frame what it has for memory `m`.
spec fn lanes_taken(w: Wit, stack: Seq<Frame>, m: int) -> bool {
    reads_lanes(w.opcode, m) ==> forall|l: int|
        0 <= l < 8 ==> #[trigger] record_lane(w, m, l) == frame_lane(stack.last(), m, l)
}

/// The frames after every number of steps.
spec fn stacks_of(
    steps: Seq<Step>,
    phase: TxPhase,
    h: spec_fn([u64; 4], [u64; 8]) -> [u64; 4],
) -> Seq<Seq<Frame>> {
    Seq::new(steps.len() + 1, |n: int| frames(steps, phase, h, n))
}

proof fn lemma_stacks(
    steps: Seq<Step>,
    phase: TxPhase,
    h: spec_fn([u64; 4], [u64; 8]) -> [u64; 4],
)
    requires
        steps.len() <= u32::MAX,
        all_acceptable(steps, phase, h),
    ensures
        ({
            let records = replay(steps, phase, h);
            let stacks = stacks_of(steps, phase, h);
            forall|i: int|
                0 <= i < records.len() ==> stacked(
                    #[trigger] records[i],
                    stacks[i],
                    stacks[i + 1],
                )
        }),
{
    let records = replay(steps, phase, h);
    let stacks = stacks_of(steps, phase, h);
    assert forall|i: int| 0 <= i < records.len() implies stacked(
        #[trigger] records[i],
        stacks[i],
        stacks[i + 1],
    ) by {
        lemma_stacked(steps, phase, h, i);
    }
}

/// When a row agrees with a memory of the call stack.
proof fn lemma_lane_row(
    steps: Seq<Step>,
    phase: TxPhase,
    h: spec_fn([u64; 4], [u64; 8]) -> [u64; 4],
    words: Seq<u64>,
    m: int,
    j: int,
)
    requires
        0 <= j < steps.len() <= u32::MAX,
        all_acceptable(steps, phase, h),
        1 <= m <= 3,
    ensures
        row_agrees(
            memory_layout(),
            witness_rows(replay(steps, phase, h), h),
            initial_stores(memory_layout(), words),
            j,
            m,
        ) <==> lanes_taken(replay(steps, phase, h)[j], frames(steps, phase, h, j), m),
{
    let records = replay(steps, phase, h);
    let rows = witness_rows(records, h);
    let stacks = stacks_of(steps, phase, h);
    let initial = initial_stores(memory_layout(), words);
    let w = records[j];
    let stack = frames(steps, phase, h, j);
    let store = after_rows(memory_layout()[m].ports, rows, initial[m], j);
    lemma_stacks(steps, phase, h);
    assert(acceptable(w, h));
    assert(stacked(w, stacks[j], stacks[j + 1]));
    lemma_stack_rules(w, h);
    lemma_lanes_agree(w, h, store, m);
    assert(rows[j] == witness_row(w, h));
    if reads_lanes(w.opcode, m) {
        assert forall|l: int| 0 <= l < 8 implies held(
            store,
            cell_key(0, (8 * (depth(w) - 1) + l) as u64),
        ) == #[trigger] frame_lane(stack.last(), m, l) by {
            lemma_lanes_start(steps, phase, h, words, m, l);
            lemma_lanes_held(records, stacks, h, initial[m], m, j, stack.len() - 1, l);
        }
    }
}

/// Values with the same limbs are the same.
proof fn lemma_same_value(a: StarstreamValue, b: StarstreamValue)
    ensures
        (forall|l: int| 0 <= l < 8 ==> #[trigger] value_limbs(a)[l] == value_limbs(b)[l]) <==> a
            == b,
{
    if forall|l: int| 0 <= l < 8 ==> #[trigger] value_limbs(a)[l] == value_limbs(b)[l] {
        assert forall|i: int| 0 <= i < 4 implies #[trigger] a.0[i] == b.0[i] by {
            assert(value_limbs(a)[2 * i] == value_limbs(b)[2 * i]);
            assert(value_limbs(a)[2 * i + 1] == value_limbs(b)[2 * i + 1]);
            assert(low_half(a.0[i]) == value_limbs(a)[2 * i]);
            assert(high_half(a.0[i]) == value_limbs(a)[2 * i + 1]);
            assert(low_half(b.0[i]) == value_limbs(b)[2 * i]);
            assert(high_half(b.0[i]) == value_limbs(b)[2 * i + 1]);
        }
        assert(a.0@ =~= b.0@);
        assert(a.0 == b.0);
    }
}

/// Methods with the same limbs are the same.
proof fn lemma_same_method(a: MethodHash, b: MethodHash)
    ensures
        (forall|l: int| 0 <= l < 8 ==> #[trigger] method_limbs(a)[l] == method_limbs(b)[l])
            <==> a == b,
{
    if forall|l: int| 0 <= l < 8 ==> #[trigger] method_limbs(a)[l] == method_limbs(b)[l] {
        assert forall|i: int| 0 <= i < 8 implies #[trigger] a.0[i] == b.0[i] by {
            assert(method_limbs(a)[i] == method_limbs(b)[i]);
            assert(method_limbs(a)[i] == a.0[i]);
            assert(method_limbs(b)[i] == b.0[i]);
        }
        assert(a.0@ =~= b.0@);
        assert(a.0 == b.0);
    }
}

/// The memories of arguments, results and methods agree where a step takes what was passed.
proof fn lemma_lanes_are_passed(
    steps: Seq<Step>,
    phase: TxPhase,
    h: spec_fn([u64; 4], [u64; 8]) -> [u64; 4],
    j: int,
)
    requires
        0 <= j < steps.len() <= u32::MAX,
        all_acceptable(steps, phase, h),
    ensures
        takes_what_was_passed(steps, phase, h, j) <==> {
            let w = replay(steps, phase, h)[j];
            let stack = frames(steps, phase, h, j);
            &&& lanes_taken(w, stack, 1)
            &&& lanes_taken(w, stack, 2)
            &&& lanes_taken(w, stack, 3)
        },
{
    let w = replay(steps, phase, h)[j];
    let stack = frames(steps, phase, h, j);
    let top = stack.last();
    assert(acceptable(w, h));
    lemma_stack_rules(w, h);
    lemma_frames(steps, phase, h, j);
    assert(w.opcode == Opcode::of_step(steps[j]));
    match steps[j] {
        Step::EnterConstructor { arguments } => {
            lemma_same_value(arguments, top.arguments);
            assert forall|l: int| 0 <= l < 8 implies #[trigger] record_lane(w, 1, l) == value_limbs(
                arguments,
            )[l] && frame_lane(top, 1, l) == value_limbs(top.arguments)[l] by {}
            assert(top.method is None);
            if lanes_taken(w, stack, 1) {
                assert forall|l: int| 0 <= l < 8 implies #[trigger] value_limbs(arguments)[l]
                    == value_limbs(top.arguments)[l] by {
                    assert(record_lane(w, 1, l) == frame_lane(top, 1, l));
                }
            }
        },
        Step::EnterMethod { method, arguments } => {
            lemma_same_value(arguments, top.arguments);
            let found = top.method->0;
            lemma_same_method(method, found);
            if lanes_taken(w, stack, 1) {
                assert forall|l: int| 0 <= l < 8 implies #[trigger] value_limbs(arguments)[l]
                    == value_limbs(top.arguments)[l] by {
                    assert(record_lane(w, 1, l) == frame_lane(top, 1, l));
                }
            }
            if lanes_taken(w, stack, 3) {
                assert forall|l: int| 0 <= l < 8 implies #[trigger] method_limbs(method)[l]
                    == method_limbs(found)[l] by {
                    assert(record_lane(w, 3, l) == frame_lane(top, 3, l));
                }
            }
        },
        Step::Return { result } => {
            lemma_same_value(result.0, top.result);
            if lanes_taken(w, stack, 2) {
                assert forall|l: int| 0 <= l < 8 implies #[trigger] value_limbs(result.0)[l]
                    == value_limbs(top.result)[l] by {
                    assert(record_lane(w, 2, l) == frame_lane(top, 2, l));
                }
            }
        },
        _ => {},
    }
}

/// What one step leaves in the cell of a frame's caller.
proof fn lemma_caller_after(
    w: Wit,
    h: spec_fn([u64; 4], [u64; 8]) -> [u64; 4],
    store: Store,
    d: int,
)
    requires
        acceptable(w, h),
        0 <= d <= u32::MAX,
    ensures
        held(
            after_ports(memory_layout()[0].ports, witness_row(w, h), store, 2),
            cell_key(0, (8 * d) as u64),
        ) == if w.opcode.pushes_to_call_stack() && depth(w) == d {
            w.curr_before.packed()
        } else {
            held(store, cell_key(0, (8 * d) as u64))
        },
{
    let z = witness_row(w, h);
    let ports = memory_layout()[0].ports;
    let key = cell_key(0, (8 * d) as u64);
    lemma_caller_ports();
    lemma_frame_columns(w, h, 0);
    lemma_turn_columns(w, h);
    if w.opcode.pushes_to_call_stack() && depth(w) == d {
        assert(ports[0].key(z) == key);
        lemma_caller_untouched(w, h, d, 1);
        lemma_written(ports, z, store, 0);
    } else {
        lemma_caller_untouched(w, h, d, 0);
        assert forall|q: int| 0 <= q < 2 implies !((#[trigger] ports[q]).active(z)
            && ports[q].kind is Write && ports[q].key(z) == key) by {}
        lemma_untouched_ports(ports, z, store, key, 0, 2);
    }
}

/// The memory of callers holds those of the frames.
proof fn lemma_callers_held(
    records: Seq<Wit>,
    stacks: Seq<Seq<Frame>>,
    h: spec_fn([u64; 4], [u64; 8]) -> [u64; 4],
    initial: Store,
    n: int,
    d: int,
)
    requires
        forall|i: int| 0 <= i < records.len() ==> #[trigger] acceptable(records[i], h),
        stacks.len() == records.len() + 1,
        forall|i: int|
            0 <= i < records.len() ==> stacked(
                #[trigger] records[i],
                stacks[i],
                stacks[i + 1],
            ),
        forall|k: int|
            0 <= k < stacks[0].len() ==> held(initial, cell_key(0, (8 * k) as u64)) == (
            #[trigger] stacks[0][k]).caller.packed(),
        0 <= n <= records.len(),
        0 <= d < stacks[n].len(),
    ensures
        held(
            after_rows(memory_layout()[0].ports, witness_rows(records, h), initial, n),
            cell_key(0, (8 * d) as u64),
        ) == stacks[n][d].caller.packed(),
    decreases n,
{
    let rows = witness_rows(records, h);
    let ports = memory_layout()[0].ports;
    if n > 0 {
        let w = records[n - 1];
        let store = after_rows(ports, rows, initial, n - 1);
        assert(acceptable(w, h));
        assert(stacked(w, stacks[n - 1], stacks[n]));
        lemma_caller_ports();
        if !(w.opcode.pushes_to_call_stack() && d == stacks[n - 1].len()) {
            assert(stacks[n][d] == stacks[n - 1][d]);
            lemma_callers_held(records, stacks, h, initial, n - 1, d);
        }
        lemma_caller_after(w, h, store, d);
        assert(after_rows(ports, rows, initial, n) == after_ports(ports, rows[n - 1], store, 2));
    } else {
        assert(stacks[0][d].caller.packed() == held(initial, cell_key(0, (8 * d) as u64)));
    }
}

/// When one step agrees with the memory of callers.
proof fn lemma_caller_agrees(w: Wit, h: spec_fn([u64; 4], [u64; 8]) -> [u64; 4], store: Store)
    requires
        acceptable(w, h),
        w.opcode == Opcode::Return ==> w.call_target.packed() == held(
            store,
            cell_key(0, (8 * (depth(w) - 1)) as u64),
        ),
    ensures
        ({
            let ports = memory_layout()[0].ports;
            let z = witness_row(w, h);
            forall|p: int|
                0 <= p < ports.len() ==> (#[trigger] ports[p]).agrees(
                    z,
                    after_ports(ports, z, store, p),
                )
        }),
{
    let ports = memory_layout()[0].ports;
    let z = witness_row(w, h);
    lemma_caller_ports();
    lemma_frame_columns(w, h, 0);
    lemma_turn_columns(w, h);
    if w.opcode == Opcode::Return {
        lemma_quiet_ports(ports, z, store, 1);
    }
}

/// A return of a replay goes to the caller of the innermost frame.
proof fn lemma_return_target(
    steps: Seq<Step>,
    phase: TxPhase,
    h: spec_fn([u64; 4], [u64; 8]) -> [u64; 4],
    j: int,
)
    requires
        0 <= j < steps.len() <= u32::MAX,
        all_acceptable(steps, phase, h),
        replay(steps, phase, h)[j].opcode == Opcode::Return,
        frames(steps, phase, h, j).len() > 0,
    ensures
        replay(steps, phase, h)[j].call_target == frames(steps, phase, h, j).last().caller,
{
    lemma_frames(steps, phase, h, j);
}

/// The memory of callers starts empty, and the first frame has no caller.
proof fn lemma_callers_start(
    steps: Seq<Step>,
    phase: TxPhase,
    h: spec_fn([u64; 4], [u64; 8]) -> [u64; 4],
    words: Seq<u64>,
)
    ensures
        initial_stores(memory_layout(), words)[0] == Map::<u128, u64>::empty(),
        frames(steps, phase, h, 0).len() == 1,
        frames(steps, phase, h, 0)[0].caller.packed() == 0,
{
    assert(memory_layout()[0] == stack_memories()[0]);
}

/// A return of a replay finds its target in the memory of callers.
proof fn lemma_caller_found(
    steps: Seq<Step>,
    phase: TxPhase,
    h: spec_fn([u64; 4], [u64; 8]) -> [u64; 4],
    words: Seq<u64>,
    j: int,
)
    requires
        0 <= j < steps.len() <= u32::MAX,
        all_acceptable(steps, phase, h),
        replay(steps, phase, h)[j].opcode == Opcode::Return,
    ensures
        held(
            after_rows(
                memory_layout()[0].ports,
                witness_rows(replay(steps, phase, h), h),
                initial_stores(memory_layout(), words)[0],
                j,
            ),
            cell_key(0, (8 * (depth(replay(steps, phase, h)[j]) - 1)) as u64),
        ) == replay(steps, phase, h)[j].call_target.packed(),
{
    let records = replay(steps, phase, h);
    let stacks = stacks_of(steps, phase, h);
    let w = records[j];
    lemma_stacks(steps, phase, h);
    assert(acceptable(w, h));
    assert(stacked(w, stacks[j], stacks[j + 1]));
    lemma_stack_rules(w, h);
    lemma_callers_start(steps, phase, h, words);
    lemma_return_target(steps, phase, h, j);
    lemma_callers_held(
        records,
        stacks,
        h,
        initial_stores(memory_layout(), words)[0],
        j,
        stacks[j].len() - 1,
    );
}

/// The memory of callers agrees with a replay.
pub(crate) proof fn lemma_caller_row(
    steps: Seq<Step>,
    phase: TxPhase,
    h: spec_fn([u64; 4], [u64; 8]) -> [u64; 4],
    words: Seq<u64>,
    j: int,
)
    requires
        0 <= j < steps.len() <= u32::MAX,
        all_acceptable(steps, phase, h),
    ensures
        row_agrees(
            memory_layout(),
            witness_rows(replay(steps, phase, h), h),
            initial_stores(memory_layout(), words),
            j,
            0,
        ),
{
    let records = replay(steps, phase, h);
    let rows = witness_rows(records, h);
    let initial = initial_stores(memory_layout(), words);
    let store = after_rows(memory_layout()[0].ports, rows, initial[0], j);
    assert(acceptable(records[j], h));
    if records[j].opcode == Opcode::Return {
        lemma_caller_found(steps, phase, h, words, j);
    }
    lemma_caller_agrees(records[j], h, store);
    assert(rows[j] == witness_row(records[j], h));
}

/// The memories of the call stack agree with a row exactly where its step takes what was
/// passed to it.
pub(crate) proof fn lemma_stack_row(
    steps: Seq<Step>,
    phase: TxPhase,
    h: spec_fn([u64; 4], [u64; 8]) -> [u64; 4],
    words: Seq<u64>,
    j: int,
)
    requires
        0 <= j < steps.len() <= u32::MAX,
        all_acceptable(steps, phase, h),
    ensures
        ({
            let rows = witness_rows(replay(steps, phase, h), h);
            let initial = initial_stores(memory_layout(), words);
            takes_what_was_passed(steps, phase, h, j) <==> {
                &&& row_agrees(memory_layout(), rows, initial, j, 1)
                &&& row_agrees(memory_layout(), rows, initial, j, 2)
                &&& row_agrees(memory_layout(), rows, initial, j, 3)
            }
        }),
{
    lemma_lane_row(steps, phase, h, words, 1, j);
    lemma_lane_row(steps, phase, h, words, 2, j);
    lemma_lane_row(steps, phase, h, words, 3, j);
    lemma_lanes_are_passed(steps, phase, h, j);
}

} // verus!
