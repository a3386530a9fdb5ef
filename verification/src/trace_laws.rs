//! What an accepted trace does from its first step to its last.

use vstd::prelude::*;

use crate::abi_laws::lemma_state_counted;
use crate::acceptance::{accepted, witness_rows};
use crate::assignment::law_rows_show_their_records;
use crate::batch::carries;
use crate::call_laws::depth;
use crate::exactness::lemma_pending_key;
use crate::field::residue;
use crate::ivc_state::{carried, lemma_packed_injective, CoroutineId, TxPhase};
use crate::legality::acceptable;
use crate::opcode::Opcode;
use crate::step::{replay, Wit};
use crate::trace::{MethodHash, Step, TransactionStatement};
use crate::witness::witness_row;

verus! {

/// Whether a step finds the state that another one left.
pub open spec fn follows(before: Wit, after: Wit) -> bool {
    &&& after.tx_before == before.tx_after
    &&& after.curr_before == before.curr_after
    &&& after.curr_phase_before == before.curr_phase_after
    &&& residue(after.call_sp_before as int) == residue(before.call_sp_after as int)
    &&& after.next_utxo_id_before == before.next_utxo_id_after
    &&& after.enabled_method_log_len_before == before.enabled_method_log_len_after
    &&& after.pending_ctor_key_before == before.pending_ctor_key_after
}

/// Steps whose rows agree on the carried columns follow one another.
proof fn lemma_follows(
    before: Wit,
    after: Wit,
    h: spec_fn([u64; 4], [u64; 8]) -> [u64; 4],
)
    requires
        forall|k: int|
            0 <= k < carried().len() ==> #[trigger] carries(
                carried()[k],
                witness_row(before, h),
                witness_row(after, h),
            ),
    ensures
        follows(before, after),
{
    let a = witness_row(before, h);
    let b = witness_row(after, h);
    law_rows_show_their_records(before, h);
    law_rows_show_their_records(after, h);
    assert(carries(carried()[0], a, b));
    assert(carries(carried()[1], a, b));
    assert(carries(carried()[2], a, b));
    assert(carries(carried()[3], a, b));
    assert(carries(carried()[4], a, b));
    assert(carries(carried()[5], a, b));
    assert(carries(carried()[6], a, b));
    assert(carries(carried()[7], a, b));
    assert(carries(carried()[8], a, b));
    assert(carries(carried()[9], a, b));
    assert(carries(carried()[10], a, b));
    assert(carries(carried()[11], a, b));
    assert(carries(carried()[12], a, b));
    lemma_packed_injective(after.curr_before, before.curr_after);
    let joined = Wit {
        pending_ctor_key_before: before.pending_ctor_key_after,
        pending_ctor_key_after: after.pending_ctor_key_before,
        ..before
    };
    lemma_pending_key(joined);
}

/// Every step of a replay finds the state that the step before it left, whether or not the
/// trace is accepted.
pub proof fn law_replay_hands_on_state(
    steps: Seq<Step>,
    phase: TxPhase,
    h: spec_fn([u64; 4], [u64; 8]) -> [u64; 4],
    i: int,
)
    requires
        0 <= i,
        i + 1 < steps.len(),
    ensures
        ({
            let before = replay(steps, phase, h)[i];
            let after = replay(steps, phase, h)[i + 1];
            &&& after.tx_before == before.tx_after
            &&& after.curr_before == before.curr_after
            &&& after.curr_phase_before == before.curr_phase_after
            &&& after.call_sp_before == before.call_sp_after
            &&& after.next_utxo_id_before == before.next_utxo_id_after
            &&& after.enabled_method_log_len_before == before.enabled_method_log_len_after
            &&& after.pending_ctor_key_before == before.pending_ctor_key_after
        }),
{
}

/// A replay gives out one UTXO identity with each constructor call and each input, and its
/// log grows by one with each registration and each loaded method; nothing else moves
/// either.
pub proof fn law_replay_counts_allocations_and_registrations(
    steps: Seq<Step>,
    phase: TxPhase,
    h: spec_fn([u64; 4], [u64; 8]) -> [u64; 4],
    i: int,
)
    requires
        0 <= i < steps.len() <= u32::MAX,
    ensures
        ({
            let w = replay(steps, phase, h)[i];
            &&& w.next_utxo_id_after == w.next_utxo_id_before + (if steps[i] is NewUtxo
                || steps[i] is SetStorage {
                1int
            } else {
                0
            })
            &&& w.enabled_method_log_len_after == w.enabled_method_log_len_before + (
            if steps[i] is RegisterMethod || steps[i] is PreloadMethod {
                1int
            } else {
                0
            })
        }),
{
    lemma_state_counted(steps, phase, h, i);
}

/// Every step of an accepted trace finds the state that the step before it left.
pub proof fn law_state_is_handed_on(
    steps: Seq<Wit>,
    table: Seq<MethodHash>,
    expected: Option<Map<u32, [u64; 4]>>,
    statement: Option<TransactionStatement>,
    h: spec_fn([u64; 4], [u64; 8]) -> [u64; 4],
    i: int,
)
    requires
        accepted(steps, table, expected, statement, h),
        0 <= i,
        i + 1 < steps.len(),
    ensures
        follows(steps[i], steps[i + 1]),
{
    let rows = witness_rows(steps, h);
    assert forall|k: int| 0 <= k < carried().len() implies #[trigger] carries(
        carried()[k],
        witness_row(steps[i], h),
        witness_row(steps[i + 1], h),
    ) by {
        assert(carries(carried()[k], rows[i], rows[i + 1]));
    }
    lemma_follows(steps[i], steps[i + 1], h);
}

/// Calls among the first `n` steps, less the returns.
pub open spec fn open_calls(steps: Seq<Wit>, n: int) -> int
    decreases n,
{
    if n <= 0 {
        0
    } else if steps[n - 1].opcode.pushes_to_call_stack() {
        open_calls(steps, n - 1) + 1
    } else if steps[n - 1].opcode.pops_from_call_stack() {
        open_calls(steps, n - 1) - 1
    } else {
        open_calls(steps, n - 1)
    }
}

/// The depth of the call stack counts the calls that did not return.
pub proof fn law_depth_counts_open_calls(
    steps: Seq<Wit>,
    table: Seq<MethodHash>,
    expected: Option<Map<u32, [u64; 4]>>,
    statement: Option<TransactionStatement>,
    h: spec_fn([u64; 4], [u64; 8]) -> [u64; 4],
    j: int,
)
    requires
        accepted(steps, table, expected, statement, h),
        0 <= j < steps.len(),
    ensures
        depth(steps[j]) == depth(steps[0]) + open_calls(steps, j),
    decreases j,
{
    reveal(acceptable);
    if j > 0 {
        law_depth_counts_open_calls(steps, table, expected, statement, h, j - 1);
        law_state_is_handed_on(steps, table, expected, statement, h, j - 1);
        assert(acceptable(steps[j - 1], h));
    }
}

/// The phase of the transaction never goes back.
pub proof fn law_phases_never_go_back(
    steps: Seq<Wit>,
    table: Seq<MethodHash>,
    expected: Option<Map<u32, [u64; 4]>>,
    statement: Option<TransactionStatement>,
    h: spec_fn([u64; 4], [u64; 8]) -> [u64; 4],
    i: int,
    j: int,
)
    requires
        accepted(steps, table, expected, statement, h),
        0 <= i <= j < steps.len(),
    ensures
        steps[i].tx_before.phase.value() <= steps[j].tx_before.phase.value(),
    decreases j,
{
    reveal(acceptable);
    if i < j {
        law_phases_never_go_back(steps, table, expected, statement, h, i, j - 1);
        law_state_is_handed_on(steps, table, expected, statement, h, j - 1);
        assert(acceptable(steps[j - 1], h));
    }
}

/// The first execution step closes loading: no input is loaded behind it.
pub proof fn law_execution_closes_loading_for_good(
    steps: Seq<Wit>,
    table: Seq<MethodHash>,
    expected: Option<Map<u32, [u64; 4]>>,
    statement: Option<TransactionStatement>,
    h: spec_fn([u64; 4], [u64; 8]) -> [u64; 4],
    i: int,
    j: int,
)
    requires
        accepted(steps, table, expected, statement, h),
        0 <= i < j < steps.len(),
        steps[i].opcode.is_execution(),
    ensures
        steps[j].opcode != Opcode::SetStorage,
        steps[j].opcode != Opcode::PreloadMethod,
{
    reveal(acceptable);
    assert(acceptable(steps[i], h));
    assert(acceptable(steps[j], h));
    law_state_is_handed_on(steps, table, expected, statement, h, i);
    law_phases_never_go_back(steps, table, expected, statement, h, i + 1, j);
}

/// Nothing but padding happens behind the end of a transaction.
pub proof fn law_nothing_follows_the_end(
    steps: Seq<Wit>,
    table: Seq<MethodHash>,
    expected: Option<Map<u32, [u64; 4]>>,
    statement: Option<TransactionStatement>,
    h: spec_fn([u64; 4], [u64; 8]) -> [u64; 4],
    i: int,
    j: int,
)
    requires
        accepted(steps, table, expected, statement, h),
        0 <= i < j < steps.len(),
        steps[i].opcode == Opcode::FinishTransaction,
    ensures
        steps[j].opcode == Opcode::Padding,
{
    reveal(acceptable);
    assert(acceptable(steps[i], h));
    assert(acceptable(steps[j], h));
    law_state_is_handed_on(steps, table, expected, statement, h, i);
    law_phases_never_go_back(steps, table, expected, statement, h, i + 1, j);
}

/// Number of steps of the output scan among the first `n` steps.
pub open spec fn scanned(steps: Seq<Wit>, n: int) -> int
    decreases n,
{
    if n <= 0 {
        0
    } else if steps[n - 1].opcode.scans_output() {
        scanned(steps, n - 1) + 1
    } else {
        scanned(steps, n - 1)
    }
}

/// The cursor of the output scan counts its steps.
proof fn lemma_cursor_counts(
    steps: Seq<Wit>,
    table: Seq<MethodHash>,
    expected: Option<Map<u32, [u64; 4]>>,
    statement: Option<TransactionStatement>,
    h: spec_fn([u64; 4], [u64; 8]) -> [u64; 4],
    j: int,
)
    requires
        accepted(steps, table, expected, statement, h),
        steps[0].tx_before.output_cursor == 0,
        0 <= j < steps.len(),
    ensures
        steps[j].tx_before.output_cursor == scanned(steps, j),
    decreases j,
{
    reveal(acceptable);
    if j > 0 {
        lemma_cursor_counts(steps, table, expected, statement, h, j - 1);
        law_state_is_handed_on(steps, table, expected, statement, h, j - 1);
        assert(acceptable(steps[j - 1], h));
    }
}

/// The output scan visits the UTXOs in the order of their identities, one a step, and a
/// transaction is finished only when all of them were visited.
pub proof fn law_outputs_are_scanned_in_order(
    steps: Seq<Wit>,
    table: Seq<MethodHash>,
    expected: Option<Map<u32, [u64; 4]>>,
    statement: Option<TransactionStatement>,
    h: spec_fn([u64; 4], [u64; 8]) -> [u64; 4],
    j: int,
)
    requires
        accepted(steps, table, expected, statement, h),
        steps[0].tx_before.output_cursor == 0,
        0 <= j < steps.len(),
    ensures
        steps[j].opcode.scans_output() ==> steps[j].boundary_utxo == CoroutineId::Utxo(
            scanned(steps, j) as u32,
        ),
        steps[j].opcode == Opcode::FinishTransaction ==> scanned(steps, j)
            == steps[j].next_utxo_id_before,
{
    reveal(acceptable);
    lemma_cursor_counts(steps, table, expected, statement, h, j);
    assert(acceptable(steps[j], h));
}

/// A step that finds reads outstanding is the next read.
proof fn lemma_outstanding_reads(
    steps: Seq<Wit>,
    table: Seq<MethodHash>,
    expected: Option<Map<u32, [u64; 4]>>,
    statement: Option<TransactionStatement>,
    h: spec_fn([u64; 4], [u64; 8]) -> [u64; 4],
    n: int,
)
    requires
        accepted(steps, table, expected, statement, h),
        0 <= n < steps.len(),
        steps[n].opcode != Opcode::Padding,
        steps[n].tx_before.abi_read_remaining > 0,
    ensures
        steps[n].opcode == Opcode::ReadAbi,
        steps[n].tx_after.abi_read_remaining + 1 == steps[n].tx_before.abi_read_remaining,
        steps[n].tx_after.abi_read_ordinal == steps[n].tx_before.abi_read_ordinal + 1,
        steps[n].tx_after.output_cursor == steps[n].tx_before.output_cursor,
        steps[n].boundary_utxo.packed() + 1 == 2 * steps[n].tx_before.output_cursor,
{
    reveal(acceptable);
    assert(acceptable(steps[n], h));
}

/// What an export leaves to be read.
proof fn lemma_export(
    steps: Seq<Wit>,
    table: Seq<MethodHash>,
    expected: Option<Map<u32, [u64; 4]>>,
    statement: Option<TransactionStatement>,
    h: spec_fn([u64; 4], [u64; 8]) -> [u64; 4],
    n: int,
)
    requires
        accepted(steps, table, expected, statement, h),
        0 <= n < steps.len(),
        steps[n].opcode == Opcode::GetStorage,
    ensures
        steps[n].tx_after.abi_read_remaining == steps[n].abi_method_count_before,
        steps[n].tx_after.abi_read_ordinal == 0,
        steps[n].tx_after.output_cursor == steps[n].tx_before.output_cursor + 1,
        steps[n].boundary_utxo.packed() == 2 * steps[n].tx_before.output_cursor + 1,
{
    reveal(acceptable);
    assert(acceptable(steps[n], h));
}

/// An export is followed by the enumeration of its whole ABI, in order: the `k`-th step
/// behind it reads registration `k - 1`, up to the number of registrations.
pub proof fn law_exports_are_enumerated(
    steps: Seq<Wit>,
    table: Seq<MethodHash>,
    expected: Option<Map<u32, [u64; 4]>>,
    statement: Option<TransactionStatement>,
    h: spec_fn([u64; 4], [u64; 8]) -> [u64; 4],
    i: int,
    k: int,
)
    requires
        accepted(steps, table, expected, statement, h),
        forall|n: int| 0 <= n < steps.len() ==> (#[trigger] steps[n]).opcode != Opcode::Padding,
        0 <= i,
        steps[i].opcode == Opcode::GetStorage,
        1 <= k <= steps[i].abi_method_count_before,
        i + k < steps.len(),
    ensures
        steps[i + k].opcode == Opcode::ReadAbi,
        steps[i + k].tx_before.abi_read_ordinal == k - 1,
        steps[i + k].tx_before.abi_read_remaining == steps[i].abi_method_count_before - (k - 1),
        steps[i + k].boundary_utxo == steps[i].boundary_utxo,
        steps[i + k].tx_before.output_cursor == steps[i].tx_before.output_cursor + 1,
    decreases k,
{
    let export = steps[i];
    let read = steps[i + k];
    law_state_is_handed_on(steps, table, expected, statement, h, i + k - 1);
    lemma_export(steps, table, expected, statement, h, i);
    if k > 1 {
        law_exports_are_enumerated(steps, table, expected, statement, h, i, k - 1);
        lemma_outstanding_reads(steps, table, expected, statement, h, i + k - 1);
    }
    assert(steps[i + k].opcode != Opcode::Padding);
    lemma_outstanding_reads(steps, table, expected, statement, h, i + k);
    lemma_packed_injective(read.boundary_utxo, export.boundary_utxo);
}

} // verus!
