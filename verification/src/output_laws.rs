//! The outputs of an accepted transaction are the UTXOs that survive it, with the methods
//! that they offer at its end.

use vstd::prelude::*;

use crate::abi_laws::{
    law_enumeration_reads_registrations, lemma_registered, lemma_state_counted, registered,
};
use crate::acceptance::{accepted, genuine_rows};
use crate::assignment::law_rows_show_their_records;
use crate::chain_laws::lemma_replay_is_genuine;
use crate::field::residue;
use crate::ivc_state::{CoroutineId, TxPhase};
use crate::legality::acceptable;
use crate::method_table::methods_of;
use crate::opcode::Opcode;
use crate::statement::{stated_outputs, ExportedOutput};
use crate::statement_laws::{io_of, law_statement_lists_inputs_and_outputs, lemma_visited};
use crate::step::{replay, state_after, Wit};
use crate::trace::{MethodHash, Step, TransactionStatement};

verus! {

/// Of the first `count` UTXOs, those that have registrations after the first `n` steps,
/// each with its methods, in the order of their identities.
pub open spec fn surviving(
    steps: Seq<Step>,
    phase: TxPhase,
    h: spec_fn([u64; 4], [u64; 8]) -> [u64; 4],
    n: int,
    count: int,
) -> Seq<(u64, Seq<MethodHash>)>
    decreases count,
{
    if count <= 0 {
        seq![]
    } else {
        let before = surviving(steps, phase, h, n, count - 1);
        let methods = registered(steps, phase, h, CoroutineId::Utxo((count - 1) as u32), n);
        if methods.len() == 0 {
            before
        } else {
            before.push(((count - 1) as u64, methods))
        }
    }
}

/// Outputs without their storage.
pub open spec fn listed(outputs: Seq<ExportedOutput>) -> Seq<(u64, Seq<MethodHash>)> {
    Seq::new(outputs.len(), |i: int| (outputs[i].utxo, outputs[i].methods))
}

/// How far the output scan came after the first `n` steps: the UTXOs that it passed are
/// listed, the last one with the methods that were read so far. Once the scan began the
/// call stack is empty and nothing is loaded; at the end the scan is over.
spec fn scan_at(
    steps: Seq<Step>,
    phase: TxPhase,
    h: spec_fn([u64; 4], [u64; 8]) -> [u64; 4],
    n: int,
) -> bool {
    let state = state_after(steps, phase, h, n);
    let cursor = state.tx.output_cursor as int;
    let remaining = state.tx.abi_read_remaining as int;
    let read = state.tx.abi_read_ordinal as int;
    let outputs = listed(io_of(steps, n).outputs);
    let last = registered(steps, phase, h, CoroutineId::Utxo((cursor - 1) as u32), n);
    &&& cursor > 0 ==> state.tx.phase != TxPhase::Loading && residue(state.call_sp as int) == 0
    &&& state.tx.phase == TxPhase::Finished ==> cursor == state.next_utxo_id && remaining == 0
    &&& remaining == 0 ==> outputs == surviving(steps, phase, h, n, cursor)
    &&& remaining > 0 ==> cursor > 0 && read + remaining == last.len() && outputs == surviving(
        steps,
        phase,
        h,
        n,
        cursor - 1,
    ).push(((cursor - 1) as u64, last.take(read)))
}

/// What the rules say of a step about the output scan.
spec fn scan_rules(w: Wit) -> bool {
    let op = w.opcode;
    &&& op.is_execution() ==> residue(w.call_sp_before as int) > 0 && w.tx_before.phase
        != TxPhase::Finished
    &&& op == Opcode::SetStorage || op == Opcode::PreloadMethod ==> w.tx_before.phase
        == TxPhase::Loading
    &&& op.scans_output() ==> w.tx_before.phase == TxPhase::Running && residue(
        w.call_sp_before as int,
    ) == 0 && w.tx_before.output_cursor < w.next_utxo_id_before
    &&& op == Opcode::GetStorage ==> w.abi_method_count_before > 0
    &&& op == Opcode::SkipConsumed ==> w.abi_method_count_before == 0
    &&& op == Opcode::ReadAbi ==> w.tx_before.abi_read_remaining > 0 && w.tx_before.phase
        == TxPhase::Running && w.tx_after.abi_read_ordinal == w.tx_before.abi_read_ordinal + 1
    &&& op != Opcode::ReadAbi && op != Opcode::Padding ==> w.tx_before.abi_read_remaining == 0
    &&& op == Opcode::FinishTransaction ==> w.tx_before.output_cursor == w.next_utxo_id_before
}

proof fn lemma_scan_rules(w: Wit, h: spec_fn([u64; 4], [u64; 8]) -> [u64; 4])
    requires
        acceptable(w, h),
    ensures
        scan_rules(w),
{
    reveal(acceptable);
}

/// The survivors stay the same where no registration of theirs changes.
proof fn lemma_survivors_stay(
    steps: Seq<Step>,
    phase: TxPhase,
    h: spec_fn([u64; 4], [u64; 8]) -> [u64; 4],
    n: int,
    count: int,
)
    requires
        0 <= n,
        !(steps[n] is PreloadMethod),
        !(steps[n] is RegisterMethod),
        !(steps[n] is YieldBegin),
    ensures
        surviving(steps, phase, h, n + 1, count) == surviving(steps, phase, h, n, count),
    decreases count,
{
    if count > 0 {
        lemma_survivors_stay(steps, phase, h, n, count - 1);
    }
}

/// A step outside the output scan and enumeration leaves the list as it is.
proof fn lemma_other_step(
    steps: Seq<Step>,
    phase: TxPhase,
    h: spec_fn([u64; 4], [u64; 8]) -> [u64; 4],
    n: int,
)
    requires
        0 <= n < steps.len() <= u32::MAX,
        scan_at(steps, phase, h, n),
        scan_rules(replay(steps, phase, h)[n]),
        !(steps[n] is GetStorage),
        !(steps[n] is SkipConsumed),
        !(steps[n] is ReadAbi),
    ensures
        scan_at(steps, phase, h, n + 1),
{
    let w = replay(steps, phase, h)[n];
    let before = state_after(steps, phase, h, n);
    let after = state_after(steps, phase, h, n + 1);
    let cursor = before.tx.output_cursor as int;
    assert(w.opcode == Opcode::of_step(steps[n]));
    assert(after.tx.output_cursor == cursor);
    assert(before.tx.abi_read_remaining == 0);
    assert(after.tx.abi_read_remaining == 0);
    assert(io_of(steps, n + 1).outputs == io_of(steps, n).outputs);
    if cursor > 0 {
        assert(!w.opcode.is_execution());
        assert(after.call_sp == before.call_sp);
        lemma_survivors_stay(steps, phase, h, n, cursor);
    } else {
        assert(surviving(steps, phase, h, n + 1, cursor) == surviving(
            steps,
            phase,
            h,
            n,
            cursor,
        ));
    }
}

/// An export opens an output, and a skip none.
proof fn lemma_scan_step(
    steps: Seq<Step>,
    phase: TxPhase,
    h: spec_fn([u64; 4], [u64; 8]) -> [u64; 4],
    n: int,
)
    requires
        0 <= n < steps.len() <= u32::MAX,
        scan_at(steps, phase, h, n),
        scan_rules(replay(steps, phase, h)[n]),
        steps[n] is GetStorage || steps[n] is SkipConsumed,
    ensures
        scan_at(steps, phase, h, n + 1),
{
    let w = replay(steps, phase, h)[n];
    let before = state_after(steps, phase, h, n);
    let after = state_after(steps, phase, h, n + 1);
    let cursor = before.tx.output_cursor as int;
    let owner = CoroutineId::Utxo(cursor as u32);
    let methods = registered(steps, phase, h, owner, n);
    lemma_state_counted(steps, phase, h, n);
    lemma_registered(steps, phase, h, owner, n);
    lemma_visited(steps, phase, h, n);
    lemma_survivors_stay(steps, phase, h, n, cursor);
    assert(w.opcode == Opcode::of_step(steps[n]));
    assert(w.abi_method_count_before == methods.len());
    assert(registered(steps, phase, h, owner, n + 1) == methods);
    assert(after.tx.output_cursor == cursor + 1);
    assert(before.tx.abi_read_remaining == 0);
    let outputs = io_of(steps, n).outputs;
    if steps[n] is GetStorage {
        assert(after.tx.abi_read_remaining == methods.len());
        assert(after.tx.abi_read_ordinal == 0);
        assert(methods.take(0) =~= seq![]);
        assert(listed(io_of(steps, n + 1).outputs) =~= listed(outputs).push(
            (cursor as u64, methods.take(0)),
        ));
    } else {
        assert(io_of(steps, n + 1).outputs == outputs);
        assert(surviving(steps, phase, h, n + 1, cursor + 1) == surviving(
            steps,
            phase,
            h,
            n + 1,
            cursor,
        ));
    }
}

/// Enumeration lists the next registration.
proof fn lemma_read_step(
    steps: Seq<Step>,
    phase: TxPhase,
    h: spec_fn([u64; 4], [u64; 8]) -> [u64; 4],
    n: int,
    method: MethodHash,
)
    requires
        0 <= n < steps.len() <= u32::MAX,
        scan_at(steps, phase, h, n),
        scan_rules(replay(steps, phase, h)[n]),
        steps[n] == (Step::ReadAbi { method }),
        ({
            let state = state_after(steps, phase, h, n);
            let methods = registered(
                steps,
                phase,
                h,
                state.boundary(Opcode::ReadAbi),
                n,
            );
            methods[state.tx.abi_read_ordinal as int] == method
        }),
    ensures
        scan_at(steps, phase, h, n + 1),
{
    let w = replay(steps, phase, h)[n];
    let before = state_after(steps, phase, h, n);
    let after = state_after(steps, phase, h, n + 1);
    let cursor = before.tx.output_cursor as int;
    let read = before.tx.abi_read_ordinal as int;
    let owner = CoroutineId::Utxo((cursor - 1) as u32);
    let methods = registered(steps, phase, h, owner, n);
    let outputs = io_of(steps, n).outputs;
    let passed = surviving(steps, phase, h, n, cursor - 1);
    assert(w.opcode == Opcode::ReadAbi);
    assert(before.boundary(Opcode::ReadAbi) == owner);
    assert(registered(steps, phase, h, owner, n + 1) == methods);
    lemma_survivors_stay(steps, phase, h, n, cursor - 1);
    assert(after.tx.output_cursor == cursor);
    assert(after.tx.abi_read_ordinal == read + 1);
    assert(after.tx.abi_read_remaining + 1 == before.tx.abi_read_remaining);
    assert(listed(outputs).len() == passed.len() + 1);
    assert(listed(outputs).last() == ((cursor - 1) as u64, methods.take(read)));
    assert(methods.take(read).push(method) =~= methods.take(read + 1));
    let now = io_of(steps, n + 1).outputs;
    assert(listed(now) =~= passed.push(((cursor - 1) as u64, methods.take(read + 1)))) by {
        assert(listed(outputs)[outputs.len() - 1] == (outputs.last().utxo, outputs.last().methods));
        assert forall|i: int| 0 <= i < passed.len() implies listed(now)[i] == passed[i] by {
            assert(listed(outputs)[i] == passed[i]);
            assert(now[i] == outputs[i]);
        }
    }
    if after.tx.abi_read_remaining == 0 {
        assert(methods.take(read + 1) =~= methods);
        assert(surviving(steps, phase, h, n + 1, cursor) == passed.push(
            ((cursor - 1) as u64, methods),
        ));
    }
}

/// The output scan of an accepted trace lists the survivors that it passed.
proof fn lemma_scan(
    steps: Seq<Step>,
    phase: TxPhase,
    expected: Option<Map<u32, [u64; 4]>>,
    statement: Option<TransactionStatement>,
    h: spec_fn([u64; 4], [u64; 8]) -> [u64; 4],
    n: int,
)
    requires
        0 <= n <= steps.len() <= u32::MAX,
        accepted(
            replay(steps, phase, h),
            methods_of(steps, steps.len() as int),
            expected,
            statement,
            h,
        ),
    ensures
        scan_at(steps, phase, h, n),
    decreases n,
{
    if n > 0 {
        lemma_scan(steps, phase, expected, statement, h, n - 1);
        assert(acceptable(replay(steps, phase, h)[n - 1], h));
        lemma_scan_rules(replay(steps, phase, h)[n - 1], h);
        match steps[n - 1] {
            Step::ReadAbi { method } => {
                law_enumeration_reads_registrations(
                    steps,
                    phase,
                    expected,
                    statement,
                    h,
                    n - 1,
                    method,
                );
                lemma_read_step(steps, phase, h, n - 1, method);
            },
            Step::GetStorage { .. } => {
                lemma_scan_step(steps, phase, h, n - 1);
            },
            Step::SkipConsumed => {
                lemma_scan_step(steps, phase, h, n - 1);
            },
            _ => {
                lemma_other_step(steps, phase, h, n - 1);
            },
        }
    } else {
        assert(listed(io_of(steps, 0).outputs) =~= seq![]);
    }
}

/// The outputs that an accepted transaction states are the UTXOs that survive it: those
/// with registrations at its end, in the order of their identities, each with the methods
/// of its final ABI generation, in order, duplicates included.
pub proof fn law_outputs_are_the_survivors(
    steps: Seq<Step>,
    phase: TxPhase,
    expected: Option<Map<u32, [u64; 4]>>,
    statement: TransactionStatement,
    h: spec_fn([u64; 4], [u64; 8]) -> [u64; 4],
)
    requires
        steps.len() <= u32::MAX,
        accepted(
            replay(steps, phase, h),
            methods_of(steps, steps.len() as int),
            expected,
            Some(statement),
            h,
        ),
    ensures
        listed(stated_outputs(statement)) == surviving(
            steps,
            phase,
            h,
            steps.len() as int,
            state_after(steps, phase, h, steps.len() as int).next_utxo_id as int,
        ),
{
    let n = steps.len() as int;
    let records = replay(steps, phase, h);
    let rows = genuine_rows(records, h, n);
    lemma_replay_is_genuine(steps, phase, h, n);
    law_statement_lists_inputs_and_outputs(steps, phase, expected, statement, h);
    lemma_scan(steps, phase, expected, Some(statement), h, n);
    law_rows_show_their_records(records[n - 1], h);
    assert(rows[n - 1] == crate::witness::witness_row(records[n - 1], h));
    assert(records[n - 1].tx_after.phase == TxPhase::Finished);
}

/// Before execution every UTXO is an input.
proof fn lemma_loading(
    steps: Seq<Step>,
    phase: TxPhase,
    h: spec_fn([u64; 4], [u64; 8]) -> [u64; 4],
    n: int,
)
    requires
        0 <= n <= steps.len() <= u32::MAX,
        forall|i: int|
            0 <= i < steps.len() ==> #[trigger] acceptable(replay(steps, phase, h)[i], h),
    ensures
        state_after(steps, phase, h, n).tx.phase == TxPhase::Loading ==> state_after(
            steps,
            phase,
            h,
            n,
        ).next_utxo_id == io_of(steps, n).inputs.len(),
    decreases n,
{
    if n > 0 {
        lemma_loading(steps, phase, h, n - 1);
        lemma_state_counted(steps, phase, h, n - 1);
        assert(acceptable(replay(steps, phase, h)[n - 1], h));
        lemma_scan_rules(replay(steps, phase, h)[n - 1], h);
    }
}

/// Inputs get consecutive identities: an input is the UTXO whose identity is the number of
/// inputs before it, and its methods are those of this UTXO.
pub proof fn law_inputs_get_consecutive_identities(
    steps: Seq<Step>,
    phase: TxPhase,
    expected: Option<Map<u32, [u64; 4]>>,
    statement: Option<TransactionStatement>,
    h: spec_fn([u64; 4], [u64; 8]) -> [u64; 4],
    j: int,
)
    requires
        0 <= j < steps.len() <= u32::MAX,
        accepted(
            replay(steps, phase, h),
            methods_of(steps, steps.len() as int),
            expected,
            statement,
            h,
        ),
    ensures
        steps[j] is SetStorage ==> replay(steps, phase, h)[j].boundary_utxo == CoroutineId::Utxo(
            io_of(steps, j).inputs.len() as u32,
        ),
        steps[j] is PreloadMethod ==> replay(steps, phase, h)[j].boundary_utxo
            == CoroutineId::Utxo((io_of(steps, j).inputs.len() - 1) as u32),
{
    lemma_loading(steps, phase, h, j);
    assert(acceptable(replay(steps, phase, h)[j], h));
    lemma_scan_rules(replay(steps, phase, h)[j], h);
    assert(steps[j] is PreloadMethod ==> state_after(steps, phase, h, j).next_utxo_id > 0) by {
        reveal(acceptable);
    }
}

} // verus!
