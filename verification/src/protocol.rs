//! What the check accepts, in terms of the trace alone.

use vstd::prelude::*;

use crate::acceptance::{accepted, genuine_rows, law_check_accepts_exactly, witness_rows};
use crate::assignment::law_rows_show_their_records;
use crate::batch::{carries, continuous, valid_batch_size};
use crate::chain_laws::{
    blocks_of, emits, law_replay_keeps_the_chains, lemma_final_chains, lemma_owner_fits,
    lemma_replay_is_genuine, owner_at,
};
use crate::chain_memory::lemma_chain_memory_row;
use crate::commitment_rules::{canonical_lanes, canonical_pair};
use crate::compression::{extended_by, reduced4, ZERO_CHAIN};
use crate::field::FIELD_MODULUS;
use crate::frame_memory::{
    all_acceptable, frames, lemma_caller_row, lemma_frames, lemma_stack_row,
    takes_what_was_passed,
};
use crate::instance_memory::{
    lemma_binding_row, lemma_count_row, lemma_generation_row, lemma_table_row,
};
use crate::ivc_state::{carried, CoroutineKind, TxPhase};
use crate::legality::{acceptable, kind_of, legal};
use crate::log_memory::{lemma_log_row, names_an_offered_method};
use crate::memory::{
    initial_stores, memory_consistent, memory_layout, row_agrees, table_words,
};
use crate::method_table::methods_of;
use crate::record_bounds::{fits, law_ranges_are_bounds};
use crate::statement::{
    starts_transaction, stated_inputs, stated_outputs, statement_holds,
};
use crate::statement_laws::{io_of, lemma_io};
use crate::step::{replay, state_after, value_limbs, Wit};
use crate::trace::{
    high_half, low_half, StarstreamValue, Step, Trace, TransactionStatement,
};
use crate::trace_laws::follows;
use crate::verify::{final_chains, trace_outcome};
use crate::witness::{lane, witness_row};

verus! {

/// Whether the words of a value are field elements.
pub open spec fn is_canonical(value: StarstreamValue) -> bool {
    forall|i: int| 0 <= i < 4 ==> (#[trigger] value.0[i]) < FIELD_MODULUS
}

/// Whether the values that a step names are made of field elements.
pub open spec fn names_canonical_values(step: Step) -> bool {
    match step {
        Step::SetStorage { storage, .. } => is_canonical(storage),
        Step::GetStorage { storage } => is_canonical(storage.0),
        Step::NewUtxo { arguments, .. } => is_canonical(arguments),
        Step::EnterConstructor { arguments } => is_canonical(arguments),
        Step::EnterMethod { arguments, .. } => is_canonical(arguments),
        Step::CallMethod { arguments, result, .. } => is_canonical(arguments) && is_canonical(
            result.0,
        ),
        Step::Return { result } => is_canonical(result.0),
        _ => true,
    }
}

/// Whether step `j` of a trace keeps the protocol: it keeps the rules of a single step,
/// within the bounds of its record, names values of field elements, takes what was passed
/// to it, and names a method that is offered.
pub open spec fn keeps_protocol(
    steps: Seq<Step>,
    phase: TxPhase,
    h: spec_fn([u64; 4], [u64; 8]) -> [u64; 4],
    j: int,
) -> bool {
    &&& legal(replay(steps, phase, h)[j])
    &&& fits(replay(steps, phase, h)[j])
    &&& names_canonical_values(steps[j])
    &&& takes_what_was_passed(steps, phase, h, j)
    &&& names_an_offered_method(steps, phase, h, j)
}

/// The limbs of a value are canonical where its words are field elements.
proof fn lemma_canonical(value: StarstreamValue)
    ensures
        canonical_lanes(Some(value_limbs(value))) <==> is_canonical(value),
{
    let bus = Some(value_limbs(value));
    assert forall|i: int| 0 <= i < 4 implies canonical_pair(
        #[trigger] lane(bus, 2 * i),
        lane(bus, 2 * i + 1),
    ) == (value.0[i] < FIELD_MODULUS) by {
        assert(lane(bus, 2 * i) == low_half(value.0[i]));
        assert(lane(bus, 2 * i + 1) == high_half(value.0[i]));
    }
    if canonical_lanes(bus) {
        assert forall|i: int| 0 <= i < 4 implies (#[trigger] value.0[i]) < FIELD_MODULUS by {
            assert(canonical_pair(lane(bus, 2 * i), lane(bus, 2 * i + 1)));
        }
    }
}

/// The values of a record are canonical where those of its step are.
proof fn lemma_canonical_values(
    steps: Seq<Step>,
    phase: TxPhase,
    h: spec_fn([u64; 4], [u64; 8]) -> [u64; 4],
    j: int,
)
    requires
        0 <= j < steps.len(),
    ensures
        ({
            let w = replay(steps, phase, h)[j];
            names_canonical_values(steps[j]) <==> canonical_lanes(w.expected_arguments)
                && canonical_lanes(w.expected_result)
        }),
{
    assert(canonical_lanes(None));
    match steps[j] {
        Step::SetStorage { storage, .. } => {
            lemma_canonical(storage);
        },
        Step::GetStorage { storage } => {
            lemma_canonical(storage.0);
        },
        Step::NewUtxo { arguments, .. } => {
            lemma_canonical(arguments);
        },
        Step::EnterConstructor { arguments } => {
            lemma_canonical(arguments);
        },
        Step::EnterMethod { arguments, .. } => {
            lemma_canonical(arguments);
        },
        Step::CallMethod { arguments, result, .. } => {
            lemma_canonical(arguments);
            lemma_canonical(result.0);
        },
        Step::Return { result } => {
            lemma_canonical(result.0);
        },
        _ => {},
    }
}

/// When the relation accepts a step of a replay.
proof fn lemma_acceptable(
    steps: Seq<Step>,
    phase: TxPhase,
    h: spec_fn([u64; 4], [u64; 8]) -> [u64; 4],
    j: int,
)
    requires
        0 <= j < steps.len(),
    ensures
        acceptable(replay(steps, phase, h)[j], h) <==> legal(replay(steps, phase, h)[j]) && fits(
            replay(steps, phase, h)[j],
        ) && names_canonical_values(steps[j]),
{
    reveal(acceptable);
    law_ranges_are_bounds(replay(steps, phase, h)[j], h);
    lemma_canonical_values(steps, phase, h, j);
}

/// Whether a trace ends as an execution does: every call returned, the coordinator that
/// started included, and a coordinator runs.
pub open spec fn completes(
    steps: Seq<Step>,
    phase: TxPhase,
    h: spec_fn([u64; 4], [u64; 8]) -> [u64; 4],
) -> bool {
    let n = steps.len() as int;
    &&& frames(steps, phase, h, n).len() == 0
    &&& kind_of(state_after(steps, phase, h, n).curr) == CoroutineKind::Coord
}

/// Whether a trace is a whole transaction with the inputs and outputs of a statement.
pub open spec fn transacts(
    steps: Seq<Step>,
    phase: TxPhase,
    h: spec_fn([u64; 4], [u64; 8]) -> [u64; 4],
    statement: TransactionStatement,
) -> bool {
    let n = steps.len() as int;
    &&& phase == TxPhase::Loading
    &&& state_after(steps, phase, h, n).tx.phase == TxPhase::Finished
    &&& io_of(steps, n).ordered
    &&& io_of(steps, n).inputs == stated_inputs(statement)
    &&& io_of(steps, n).outputs == stated_outputs(statement)
}

/// Whether roots are those of a trace: one for each coroutine that emits an event, which
/// commits to the blocks of its events, in order.
pub open spec fn has_roots(
    steps: Seq<Step>,
    phase: TxPhase,
    h: spec_fn([u64; 4], [u64; 8]) -> [u64; 4],
    roots: Map<u32, [u64; 4]>,
) -> bool {
    let n = steps.len() as int;
    forall|k: u32|
        {
            &&& #[trigger] roots.contains_key(k) <==> emits(steps, phase, h, k as u64, n)
            &&& roots.contains_key(k) ==> roots[k] == reduced4(
                extended_by(
                    h,
                    ZERO_CHAIN,
                    blocks_of(steps, phase, h, k as u64, n),
                    blocks_of(steps, phase, h, k as u64, n).len() as int,
                ),
            )
        }
}

/// Whether the protocol allows a trace: it is not empty, keeps the protocol step by step,
/// completes, and has the statement and the roots that are asked for. Without a statement it
/// ends in the phase `Running`.
pub open spec fn allowed(
    steps: Seq<Step>,
    phase: TxPhase,
    expected: Option<Map<u32, [u64; 4]>>,
    statement: Option<TransactionStatement>,
    h: spec_fn([u64; 4], [u64; 8]) -> [u64; 4],
) -> bool {
    &&& steps.len() > 0
    &&& forall|j: int| 0 <= j < steps.len() ==> #[trigger] keeps_protocol(steps, phase, h, j)
    &&& completes(steps, phase, h)
    &&& match statement {
        Some(statement) => transacts(steps, phase, h, statement),
        None => state_after(steps, phase, h, steps.len() as int).tx.phase == TxPhase::Running,
    }
    &&& expected matches Some(roots) ==> has_roots(steps, phase, h, roots)
}

/// Whether memory `m` agrees with row `j` of a replay.
#[verifier::opaque]
spec fn agrees(
    steps: Seq<Step>,
    phase: TxPhase,
    h: spec_fn([u64; 4], [u64; 8]) -> [u64; 4],
    j: int,
    m: int,
) -> bool {
    row_agrees(
        memory_layout(),
        witness_rows(replay(steps, phase, h), h),
        initial_stores(memory_layout(), table_words(methods_of(steps, steps.len() as int))),
        j,
        m,
    )
}

/// When the memories of the call stack agree.
proof fn lemma_stack_agrees(
    steps: Seq<Step>,
    phase: TxPhase,
    h: spec_fn([u64; 4], [u64; 8]) -> [u64; 4],
    j: int,
)
    requires
        0 <= j < steps.len() <= u32::MAX,
        all_acceptable(steps, phase, h),
    ensures
        agrees(steps, phase, h, j, 0),
        takes_what_was_passed(steps, phase, h, j) <==> agrees(steps, phase, h, j, 1) && agrees(
            steps,
            phase,
            h,
            j,
            2,
        ) && agrees(steps, phase, h, j, 3),
{
    reveal(agrees);
    let words = table_words(methods_of(steps, steps.len() as int));
    lemma_caller_row(steps, phase, h, words, j);
    lemma_stack_row(steps, phase, h, words, j);
}

/// When the memories of methods agree.
proof fn lemma_log_agrees(
    steps: Seq<Step>,
    phase: TxPhase,
    h: spec_fn([u64; 4], [u64; 8]) -> [u64; 4],
    j: int,
)
    requires
        0 <= j < steps.len() <= u32::MAX,
        all_acceptable(steps, phase, h),
    ensures
        agrees(steps, phase, h, j, 4),
        names_an_offered_method(steps, phase, h, j) <==> agrees(steps, phase, h, j, 5) && agrees(
            steps,
            phase,
            h,
            j,
            6,
        ) && agrees(steps, phase, h, j, 7) && agrees(steps, phase, h, j, 8),
{
    reveal(agrees);
    let words = table_words(methods_of(steps, steps.len() as int));
    lemma_table_row(steps, phase, h, j);
    lemma_log_row(steps, phase, h, words, j);
}

/// The memories of bindings, generations, counts and chains agree.
proof fn lemma_instances_agree(
    steps: Seq<Step>,
    phase: TxPhase,
    h: spec_fn([u64; 4], [u64; 8]) -> [u64; 4],
    j: int,
)
    requires
        0 <= j < steps.len() <= u32::MAX,
    ensures
        agrees(steps, phase, h, j, 9),
        agrees(steps, phase, h, j, 10),
        agrees(steps, phase, h, j, 11),
        agrees(steps, phase, h, j, 12),
{
    reveal(agrees);
    let words = table_words(methods_of(steps, steps.len() as int));
    lemma_binding_row(steps, phase, h, words, j);
    lemma_generation_row(steps, phase, h, words, j);
    lemma_count_row(steps, phase, h, words, j);
    lemma_chain_memory_row(steps, phase, h, words, j);
}

/// A row agrees with every memory exactly where its step takes what was passed to it and
/// names a method that is offered.
proof fn lemma_row_agrees(
    steps: Seq<Step>,
    phase: TxPhase,
    h: spec_fn([u64; 4], [u64; 8]) -> [u64; 4],
    j: int,
)
    requires
        0 <= j < steps.len() <= u32::MAX,
        all_acceptable(steps, phase, h),
    ensures
        (forall|m: int| 0 <= m < 13 ==> #[trigger] agrees(steps, phase, h, j, m))
            <==> takes_what_was_passed(steps, phase, h, j) && names_an_offered_method(
            steps,
            phase,
            h,
            j,
        ),
{
    lemma_stack_agrees(steps, phase, h, j);
    lemma_log_agrees(steps, phase, h, j);
    lemma_instances_agree(steps, phase, h, j);
    if takes_what_was_passed(steps, phase, h, j) && names_an_offered_method(steps, phase, h, j) {
        assert forall|m: int| 0 <= m < 13 implies #[trigger] agrees(steps, phase, h, j, m) by {
            assert(m == 0 || m == 1 || m == 2 || m == 3 || m == 4 || m == 5 || m == 6 || m == 7
                || m == 8 || m == 9 || m == 10 || m == 11 || m == 12);
        }
    }
}

/// Memory is consistent with the rows of a replay where it agrees with each of them.
proof fn lemma_consistent(
    steps: Seq<Step>,
    phase: TxPhase,
    h: spec_fn([u64; 4], [u64; 8]) -> [u64; 4],
)
    ensures
        memory_consistent(
            memory_layout(),
            witness_rows(replay(steps, phase, h), h),
            initial_stores(memory_layout(), table_words(methods_of(steps, steps.len() as int))),
        ) <==> forall|j: int, m: int|
            0 <= j < steps.len() && 0 <= m < 13 ==> #[trigger] agrees(steps, phase, h, j, m),
{
    let layout = memory_layout();
    let rows = witness_rows(replay(steps, phase, h), h);
    let initial = initial_stores(layout, table_words(methods_of(steps, steps.len() as int)));
    assert(layout.len() == 13);
    assert forall|j: int, m: int| #[trigger]
        agrees(steps, phase, h, j, m) == row_agrees(layout, rows, initial, j, m) by {
        reveal(agrees);
    }
    if memory_consistent(layout, rows, initial) {
        assert forall|j: int, m: int| 0 <= j < steps.len() && 0 <= m < 13 implies #[trigger] agrees(
            steps,
            phase,
            h,
            j,
            m,
        ) by {
            assert(row_agrees(layout, rows, initial, j, m));
        }
    }
    if forall|j: int, m: int|
        0 <= j < steps.len() && 0 <= m < 13 ==> #[trigger] agrees(steps, phase, h, j, m) {
        assert forall|j: int, m: int|
            0 <= j < rows.len() && 0 <= m < layout.len() implies #[trigger] row_agrees(
            layout,
            rows,
            initial,
            j,
            m,
        ) by {
            assert(agrees(steps, phase, h, j, m));
        }
    }
}

/// The memories of a trace whose steps keep the rules agree with its rows exactly where
/// every step takes what was passed to it and names a method that is offered.
pub proof fn law_memory_agrees_exactly(
    steps: Seq<Step>,
    phase: TxPhase,
    h: spec_fn([u64; 4], [u64; 8]) -> [u64; 4],
)
    requires
        steps.len() <= u32::MAX,
        all_acceptable(steps, phase, h),
    ensures
        memory_consistent(
            memory_layout(),
            witness_rows(replay(steps, phase, h), h),
            initial_stores(memory_layout(), table_words(methods_of(steps, steps.len() as int))),
        ) <==> forall|j: int|
            0 <= j < steps.len() ==> #[trigger] keeps_protocol(steps, phase, h, j),
{
    let agreed = forall|j: int, m: int|
        0 <= j < steps.len() && 0 <= m < 13 ==> #[trigger] agrees(steps, phase, h, j, m);
    let kept = forall|j: int|
        0 <= j < steps.len() ==> #[trigger] keeps_protocol(steps, phase, h, j);
    lemma_consistent(steps, phase, h);
    if agreed {
        assert forall|j: int| 0 <= j < steps.len() implies #[trigger] keeps_protocol(
            steps,
            phase,
            h,
            j,
        ) by {
            lemma_row_agrees(steps, phase, h, j);
            assert(acceptable(replay(steps, phase, h)[j], h));
            lemma_acceptable(steps, phase, h, j);
        }
    }
    if kept {
        assert forall|j: int, m: int| 0 <= j < steps.len() && 0 <= m < 13 implies #[trigger] agrees(
            steps,
            phase,
            h,
            j,
            m,
        ) by {
            assert(keeps_protocol(steps, phase, h, j));
            lemma_row_agrees(steps, phase, h, j);
        }
    }
}

/// Rows of records that follow one another agree on the carried columns.
proof fn lemma_follower_carries(
    before: Wit,
    after: Wit,
    h: spec_fn([u64; 4], [u64; 8]) -> [u64; 4],
    i: int,
)
    requires
        follows(before, after),
        0 <= i < carried().len(),
    ensures
        carries(carried()[i], witness_row(before, h), witness_row(after, h)),
{
    law_rows_show_their_records(before, h);
    law_rows_show_their_records(after, h);
}

/// A replay hands its state from step to step.
proof fn lemma_replay_follows(
    steps: Seq<Step>,
    phase: TxPhase,
    h: spec_fn([u64; 4], [u64; 8]) -> [u64; 4],
    j: int,
)
    requires
        0 <= j,
        j + 1 < steps.len(),
    ensures
        follows(replay(steps, phase, h)[j], replay(steps, phase, h)[j + 1]),
{
}

/// The rows of a replay are continuous.
proof fn lemma_replay_is_continuous(
    steps: Seq<Step>,
    phase: TxPhase,
    h: spec_fn([u64; 4], [u64; 8]) -> [u64; 4],
)
    ensures
        continuous(carried(), witness_rows(replay(steps, phase, h), h)),
{
    let rows = witness_rows(replay(steps, phase, h), h);
    assert forall|j: int, i: int|
        0 <= j && j + 1 < rows.len() && 0 <= i < carried().len() implies #[trigger] carries(
        carried()[i],
        rows[j],
        rows[j + 1],
    ) by {
        lemma_replay_follows(steps, phase, h, j);
        lemma_follower_carries(replay(steps, phase, h)[j], replay(steps, phase, h)[j + 1], h, i);
    }
}

/// A replay starts as a transaction does where it starts by loading.
proof fn lemma_start(
    steps: Seq<Step>,
    phase: TxPhase,
    h: spec_fn([u64; 4], [u64; 8]) -> [u64; 4],
)
    requires
        steps.len() > 0,
    ensures
        starts_transaction(witness_row(replay(steps, phase, h)[0], h)) <==> phase
            == TxPhase::Loading,
{
    let w = replay(steps, phase, h)[0];
    law_rows_show_their_records(w, h);
    vstd::arithmetic::div_mod::lemma_small_mod(1, FIELD_MODULUS as nat);
}

/// The statement that the rows of a replay show is that of the trace.
proof fn lemma_statement(
    steps: Seq<Step>,
    phase: TxPhase,
    h: spec_fn([u64; 4], [u64; 8]) -> [u64; 4],
    statement: TransactionStatement,
)
    requires
        0 < steps.len() <= u32::MAX,
        all_acceptable(steps, phase, h),
    ensures
        statement_holds(
            genuine_rows(replay(steps, phase, h), h, steps.len() as int),
            statement,
        ) <==> transacts(steps, phase, h, statement),
{
    let n = steps.len() as int;
    let records = replay(steps, phase, h);
    let rows = genuine_rows(records, h, n);
    lemma_replay_is_genuine(steps, phase, h, n);
    lemma_io(steps, phase, h, rows, n);
    lemma_start(steps, phase, h);
    law_rows_show_their_records(records[n - 1], h);
    assert(rows[0] == witness_row(records[0], h));
    assert(rows[n - 1] == witness_row(records[n - 1], h));
    assert(records[n - 1].tx_after == state_after(steps, phase, h, n).tx);
}

/// The roots that the rows of a replay show are those of the trace.
proof fn lemma_roots(
    steps: Seq<Step>,
    phase: TxPhase,
    h: spec_fn([u64; 4], [u64; 8]) -> [u64; 4],
    roots: Map<u32, [u64; 4]>,
)
    requires
        0 < steps.len() <= u32::MAX,
        all_acceptable(steps, phase, h),
    ensures
        final_chains(
            genuine_rows(replay(steps, phase, h), h, steps.len() as int),
            steps.len() as int,
        ) == roots <==> has_roots(steps, phase, h, roots),
{
    let n = steps.len() as int;
    let records = replay(steps, phase, h);
    let rows = genuine_rows(records, h, n);
    let found = final_chains(rows, n);
    lemma_replay_is_genuine(steps, phase, h, n);
    assert forall|i: int| 0 <= i < n implies (#[trigger] owner_at(steps, phase, h, i) matches Some(
        owner,
    ) ==> owner <= u32::MAX) by {
        assert(acceptable(records[i], h));
        lemma_owner_fits(records[i], h);
    }
    assert(has_roots(steps, phase, h, found)) by {
        assert forall|k: u32|
            {
                &&& #[trigger] found.contains_key(k) <==> emits(steps, phase, h, k as u64, n)
                &&& found.contains_key(k) ==> found[k] == reduced4(
                    extended_by(
                        h,
                        ZERO_CHAIN,
                        blocks_of(steps, phase, h, k as u64, n),
                        blocks_of(steps, phase, h, k as u64, n).len() as int,
                    ),
                )
            } by {
            lemma_final_chains(steps, phase, h, rows, n, k);
            law_replay_keeps_the_chains(steps, phase, h, k as u64, n);
        }
    }
    if has_roots(steps, phase, h, roots) {
        assert forall|k: u32| found.contains_key(k) == roots.contains_key(k) && (
        found.contains_key(k) ==> found[k] == roots[k]) by {}
        assert(found =~= roots);
    }
}

/// The check accepts exactly the traces that the protocol allows.
pub proof fn law_accepts_exactly_the_protocol(
    steps: Seq<Step>,
    phase: TxPhase,
    expected: Option<Map<u32, [u64; 4]>>,
    statement: Option<TransactionStatement>,
    h: spec_fn([u64; 4], [u64; 8]) -> [u64; 4],
)
    requires
        steps.len() <= u32::MAX,
    ensures
        accepted(
            replay(steps, phase, h),
            methods_of(steps, steps.len() as int),
            expected,
            statement,
            h,
        ) <==> allowed(steps, phase, expected, statement, h),
{
    let n = steps.len() as int;
    let records = replay(steps, phase, h);
    let table = methods_of(steps, n);
    if forall|j: int| 0 <= j < steps.len() ==> #[trigger] keeps_protocol(steps, phase, h, j) {
        assert forall|i: int| 0 <= i < steps.len() implies #[trigger] acceptable(
            records[i],
            h,
        ) by {
            assert(keeps_protocol(steps, phase, h, i));
            lemma_acceptable(steps, phase, h, i);
        }
    }
    if n > 0 && all_acceptable(steps, phase, h) {
        law_memory_agrees_exactly(steps, phase, h);
        lemma_replay_is_continuous(steps, phase, h);
        lemma_replay_is_genuine(steps, phase, h, n);
        lemma_frames(steps, phase, h, n);
        let last = records[n - 1];
        let end = state_after(steps, phase, h, n);
        assert(records.last() == last);
        assert(last.tx_after == end.tx && last.curr_after == end.curr && last.call_sp_after
            == end.call_sp);
        if let Some(statement) = statement {
            lemma_statement(steps, phase, h, statement);
        }
        if let Some(roots) = expected {
            lemma_roots(steps, phase, h, roots);
        }
    }
}

/// The check of a trace succeeds exactly on what the protocol allows, in batches of any
/// size.
pub proof fn law_check_is_the_protocol(
    trace: Trace,
    phase: TxPhase,
    size: usize,
    expected: Option<Map<u32, [u64; 4]>>,
    statement: Option<TransactionStatement>,
    h: spec_fn([u64; 4], [u64; 8]) -> [u64; 4],
)
    requires
        trace.0@.len() <= u32::MAX,
        valid_batch_size(size),
    ensures
        trace_outcome(trace, phase, size, expected, statement, h) is Ok <==> allowed(
            trace.0@,
            phase,
            expected,
            statement,
            h,
        ),
{
    let steps = trace.0@;
    law_check_accepts_exactly(
        replay(steps, phase, h),
        methods_of(steps, steps.len() as int),
        size,
        expected,
        statement,
        h,
    );
    law_accepts_exactly_the_protocol(steps, phase, expected, statement, h);
}

} // verus!
