//! The statement of an accepted transaction lists what its trace loads and exports.

use vstd::prelude::*;

use crate::acceptance::{accepted, genuine_rows};
use crate::assignment::law_rows_show_their_records;
use crate::call_laws::lemma_lane_values;
use crate::chain_laws::lemma_replay_is_genuine;
use crate::claim::start;
use crate::commitment::root_fields;
use crate::commitment_rules::{canonical_pair, lemma_root_field};
use crate::field::FIELD_MODULUS;
use crate::ivc_state::{carried, TxPhase};
use crate::layout::{
    ROW_WIDTH, COL_OUTPUT_CURSOR_BEFORE, COL_SEL_GET_STORAGE, COL_SEL_PRELOAD_METHOD,
    COL_SEL_READ_ABI, COL_SEL_SET_STORAGE, COL_TX_PHASE_AFTER,
};
use crate::legality::acceptable;
use crate::memory::value_of;
use crate::method_table::methods_of;
use crate::opcode::Opcode;
use crate::statement::{
    boundary_of, root, row_method, selects, stated_inputs, stated_outputs,
    statement_holds, Boundary, ExportedOutput, LoadedInput,
};
use crate::step::{method_limbs, replay, state_after, value_limbs, Wit};
use crate::trace::{
    high_half, low_half, MethodHash, StarstreamValue, Step, TransactionStatement,
};
use crate::witness::{flag, lane, witness_row};

verus! {

/// Number of steps of the output scan among the first `n` steps of a trace.
pub open spec fn visited(steps: Seq<Step>, n: int) -> int
    decreases n,
{
    if n <= 0 {
        0
    } else if Opcode::of_step(steps[n - 1]).scans_output() {
        visited(steps, n - 1) + 1
    } else {
        visited(steps, n - 1)
    }
}

/// A list of inputs and outputs with one step more: storage opens an input or an output,
/// and a method belongs to the last one opened.
pub open spec fn with_step(io: Boundary, step: Step, utxo: u64) -> Boundary {
    match step {
        Step::SetStorage { storage, .. } => Boundary {
            inputs: io.inputs.push(LoadedInput { storage: storage.0, methods: seq![] }),
            ..io
        },
        Step::PreloadMethod { method } => if io.inputs.len() == 0 {
            Boundary { ordered: false, ..io }
        } else {
            let last = io.inputs.last();
            Boundary {
                inputs: io.inputs.update(
                    io.inputs.len() - 1,
                    LoadedInput { methods: last.methods.push(method), ..last },
                ),
                ..io
            }
        },
        Step::GetStorage { storage } => Boundary {
            outputs: io.outputs.push(
                ExportedOutput { utxo, storage: storage.0.0, methods: seq![] },
            ),
            ..io
        },
        Step::ReadAbi { method } => if io.outputs.len() == 0 {
            Boundary { ordered: false, ..io }
        } else {
            let last = io.outputs.last();
            Boundary {
                outputs: io.outputs.update(
                    io.outputs.len() - 1,
                    ExportedOutput { methods: last.methods.push(method), ..last },
                ),
                ..io
            }
        },
        _ => io,
    }
}

/// What the first `n` steps of a trace load and export. The UTXO of an output is the
/// number of UTXOs that the output scan visited before it.
pub open spec fn io_of(steps: Seq<Step>, n: int) -> Boundary
    decreases n,
{
    if n <= 0 {
        Boundary { inputs: seq![], outputs: seq![], ordered: true }
    } else {
        with_step(io_of(steps, n - 1), steps[n - 1], visited(steps, n - 1) as u64)
    }
}

/// The lanes of argument and result of an acceptable step are canonical.
proof fn lemma_canonical_values(w: Wit, h: spec_fn([u64; 4], [u64; 8]) -> [u64; 4], i: int)
    requires
        acceptable(w, h),
        0 <= i < 4,
    ensures
        canonical_pair(lane(w.expected_arguments, 2 * i), lane(w.expected_arguments, 2 * i + 1)),
        canonical_pair(lane(w.expected_result, 2 * i), lane(w.expected_result, 2 * i + 1)),
{
    reveal(acceptable);
}

/// A field element of the root of a value is a word of it.
proof fn lemma_value_word(
    w: Wit,
    h: spec_fn([u64; 4], [u64; 8]) -> [u64; 4],
    group: usize,
    value: StarstreamValue,
    i: int,
)
    requires
        acceptable(w, h),
        group == 2 ==> w.expected_arguments == Some(value_limbs(value)),
        group == 3 ==> w.expected_result == Some(value_limbs(value)),
        group == 2 || group == 3,
        0 <= i < 4,
    ensures
        value_of(witness_row(w, h), (root_fields(group) + i) as usize) == value.0[i],
{
    let bus = Some(value_limbs(value));
    let word = value.0[i];
    lemma_root_field(w, h, group, i);
    lemma_canonical_values(w, h, i);
    assert(lane(bus, 2 * i) == low_half(word));
    assert(lane(bus, 2 * i + 1) == high_half(word));
    assert(word == low_half(word) + 0x1_0000_0000 * high_half(word));
    vstd::arithmetic::div_mod::lemma_small_mod(word as nat, FIELD_MODULUS as nat);
}

/// A root of a row, word by word.
proof fn lemma_root_words(z: Seq<u64>, first: usize, words: [u64; 4])
    requires
        first < ROW_WIDTH,
        value_of(z, (first + 0) as usize) == words[0],
        value_of(z, (first + 1) as usize) == words[1],
        value_of(z, (first + 2) as usize) == words[2],
        value_of(z, (first + 3) as usize) == words[3],
    ensures
        root(z, first) == words,
{
    assert(root(z, first)@ =~= words@);
}

/// The root of a canonical value is the value.
proof fn lemma_value_root(
    w: Wit,
    h: spec_fn([u64; 4], [u64; 8]) -> [u64; 4],
    group: usize,
    value: StarstreamValue,
)
    requires
        acceptable(w, h),
        group == 2 ==> w.expected_arguments == Some(value_limbs(value)),
        group == 3 ==> w.expected_result == Some(value_limbs(value)),
        group == 2 || group == 3,
    ensures
        root(witness_row(w, h), root_fields(group)) == value.0,
{
    lemma_value_word(w, h, group, value, 0);
    lemma_value_word(w, h, group, value, 1);
    lemma_value_word(w, h, group, value, 2);
    lemma_value_word(w, h, group, value, 3);
    lemma_root_words(witness_row(w, h), root_fields(group), value.0);
}

/// The method of a row is the one of its record.
proof fn lemma_row_method(w: Wit, h: spec_fn([u64; 4], [u64; 8]) -> [u64; 4], method: MethodHash)
    requires
        acceptable(w, h),
        w.method_hash == Some(method_limbs(method)),
    ensures
        row_method(witness_row(w, h)) == method,
{
    lemma_lane_values(w, h, 0);
    lemma_lane_values(w, h, 1);
    lemma_lane_values(w, h, 2);
    lemma_lane_values(w, h, 3);
    lemma_lane_values(w, h, 4);
    lemma_lane_values(w, h, 5);
    lemma_lane_values(w, h, 6);
    lemma_lane_values(w, h, 7);
    let found = row_method(witness_row(w, h));
    assert(found.0@ =~= method.0@);
    assert(found.0 == method.0);
}

/// The cursor of a replay counts the steps of the output scan.
pub(crate) proof fn lemma_visited(
    steps: Seq<Step>,
    phase: TxPhase,
    h: spec_fn([u64; 4], [u64; 8]) -> [u64; 4],
    n: int,
)
    requires
        0 <= n <= steps.len() <= u32::MAX,
    ensures
        state_after(steps, phase, h, n).tx.output_cursor == visited(steps, n),
        0 <= visited(steps, n) <= n,
    decreases n,
{
    if n > 0 {
        lemma_visited(steps, phase, h, n - 1);
    }
}

/// Which of the boundary opcodes the row of a record selects.
proof fn lemma_boundary_selectors(w: Wit, h: spec_fn([u64; 4], [u64; 8]) -> [u64; 4])
    ensures
        selects(witness_row(w, h), COL_SEL_SET_STORAGE) <==> w.opcode == Opcode::SetStorage,
        selects(witness_row(w, h), COL_SEL_PRELOAD_METHOD) <==> w.opcode == Opcode::PreloadMethod,
        selects(witness_row(w, h), COL_SEL_GET_STORAGE) <==> w.opcode == Opcode::GetStorage,
        selects(witness_row(w, h), COL_SEL_READ_ABI) <==> w.opcode == Opcode::ReadAbi,
        value_of(witness_row(w, h), COL_OUTPUT_CURSOR_BEFORE) == w.tx_before.output_cursor,
{
    let z = witness_row(w, h);
    law_rows_show_their_records(w, h);
    assert(value_of(z, Opcode::SetStorage.selector()) == flag(w.opcode == Opcode::SetStorage));
    assert(value_of(z, Opcode::PreloadMethod.selector()) == flag(
        w.opcode == Opcode::PreloadMethod,
    ));
    assert(value_of(z, Opcode::GetStorage.selector()) == flag(w.opcode == Opcode::GetStorage));
    assert(value_of(z, Opcode::ReadAbi.selector()) == flag(w.opcode == Opcode::ReadAbi));
}

/// One row says of inputs and outputs what its step says.
proof fn lemma_step_io(
    steps: Seq<Step>,
    phase: TxPhase,
    h: spec_fn([u64; 4], [u64; 8]) -> [u64; 4],
    i: int,
    io: Boundary,
)
    requires
        0 <= i < steps.len() <= u32::MAX,
        acceptable(replay(steps, phase, h)[i], h),
    ensures
        io.with_row(witness_row(replay(steps, phase, h)[i], h)) == with_step(
            io,
            steps[i],
            visited(steps, i) as u64,
        ),
{
    let w = replay(steps, phase, h)[i];
    lemma_visited(steps, phase, h, i);
    lemma_boundary_selectors(w, h);
    match steps[i] {
        Step::SetStorage { storage, .. } => {
            lemma_value_root(w, h, 2, storage);
        },
        Step::PreloadMethod { method } => {
            lemma_row_method(w, h, method);
        },
        Step::GetStorage { storage } => {
            lemma_value_root(w, h, 3, storage.0);
        },
        Step::ReadAbi { method } => {
            lemma_row_method(w, h, method);
        },
        _ => {},
    }
}

pub(crate) proof fn lemma_io(
    steps: Seq<Step>,
    phase: TxPhase,
    h: spec_fn([u64; 4], [u64; 8]) -> [u64; 4],
    rows: Seq<Seq<u64>>,
    n: int,
)
    requires
        0 <= n <= steps.len() <= u32::MAX,
        rows.len() == steps.len(),
        forall|i: int|
            0 <= i < rows.len() ==> #[trigger] rows[i] == witness_row(
                replay(steps, phase, h)[i],
                h,
            ),
        forall|i: int|
            0 <= i < steps.len() ==> #[trigger] acceptable(replay(steps, phase, h)[i], h),
    ensures
        boundary_of(rows, n) == io_of(steps, n),
    decreases n,
{
    if n > 0 {
        lemma_io(steps, phase, h, rows, n - 1);
        assert(acceptable(replay(steps, phase, h)[n - 1], h));
        assert(rows[n - 1] == witness_row(replay(steps, phase, h)[n - 1], h));
        lemma_step_io(steps, phase, h, n - 1, io_of(steps, n - 1));
    }
}

/// The statement of an accepted transaction lists the inputs that its trace loads and the
/// outputs that it exports, in the order of the trace, each with its methods in order,
/// duplicates included.
pub proof fn law_statement_lists_inputs_and_outputs(
    steps: Seq<Step>,
    phase: TxPhase,
    expected: Option<Map<u32, [u64; 4]>>,
    statement: TransactionStatement,
    h: spec_fn([u64; 4], [u64; 8]) -> [u64; 4],
)
    requires
        steps.len() <= u32::MAX,
        accepted(
            replay(steps, phase, h),
            methods_of(steps, steps.len() as int),
            expected,
            Some(statement),
            h,
        ),
    ensures
        io_of(steps, steps.len() as int).ordered,
        io_of(steps, steps.len() as int).inputs == stated_inputs(statement),
        io_of(steps, steps.len() as int).outputs == stated_outputs(statement),
        ({
            let io = io_of(steps, steps.len() as int);
            &&& io.inputs.len() == statement.inputs@.len()
            &&& forall|i: int|
                0 <= i < io.inputs.len() ==> (#[trigger] io.inputs[i]).storage
                    == statement.inputs@[i].storage.0 && io.inputs[i].methods
                    == statement.inputs@[i].methods@
            &&& io.outputs.len() == statement.outputs@.len()
            &&& forall|i: int|
                0 <= i < io.outputs.len() ==> (#[trigger] io.outputs[i]).utxo
                    == statement.outputs@[i].utxo && io.outputs[i].storage
                    == statement.outputs@[i].storage.0 && io.outputs[i].methods
                    == statement.outputs@[i].methods@
        }),
{
    let n = steps.len() as int;
    let records = replay(steps, phase, h);
    let rows = genuine_rows(records, h, n);
    lemma_replay_is_genuine(steps, phase, h, n);
    lemma_io(steps, phase, h, rows, n);
}

/// A transaction with a statement starts from the state that every execution starts from,
/// but in the phase `Loading`, and ends in the phase `Finished`.
pub proof fn law_transactions_start_and_finish(
    rows: Seq<Seq<u64>>,
    statement: TransactionStatement,
    i: int,
)
    requires
        statement_holds(rows, statement),
        0 <= i < carried().len(),
    ensures
        value_of(rows[0], carried()[i].next_step_column) == (if carried()[i].previous_step_column
            == COL_TX_PHASE_AFTER {
            TxPhase::Loading.value()
        } else {
            start()[i]
        }),
        value_of(rows.last(), COL_TX_PHASE_AFTER) == TxPhase::Finished.value(),
{
}

} // verus!
