//! The rules of interleaved execution.
//!
//! A rule speaks of the witness record of one step: the state before it, the state after
//! it, and what it names. [`law_rows_are_exact`] says that the relation between the
//! columns of a row enforces these rules, and nothing but these rules and ranges.

use vstd::prelude::*;

use crate::assignment::{law_rows_show_their_records, shows};
use crate::batch::{
    batch_count, law_check_is_exact, packed_origins, packed_rows,
};
use crate::commitment_rules::{canonical_lanes, lemma_commitment, plain_row};
use crate::exactness::{
    lemma_append, lemma_call_method, lemma_enter_constructor, lemma_enter_method, lemma_finish,
    lemma_get_storage, lemma_new_utxo, lemma_preload_method, lemma_read_abi,
    lemma_register_method, lemma_set_storage, lemma_skip_consumed, lemma_yield_begin,
    lemma_yield_boundary, ranged, rule_append, rule_call_method, rule_enter_constructor,
    rule_enter_method, rule_finish, rule_get_storage, rule_new_utxo, rule_preload_method,
    rule_read_abi, rule_register_method, rule_set_storage, rule_skip_consumed, rule_yield_begin,
    rule_yield_boundary,
};
use crate::field::residue;
use crate::ivc_state::{lemma_packed_injective, CoroutineId, CoroutineKind, CurrPhase, TxPhase};
use crate::layout::{COLUMN_COUNT, COL_CALL_STACK_EXPECTED_ARG_VALUE, COL_CALL_STACK_EXPECTED_RESULT_VALUE};
use crate::memory::table_words;
use crate::opcode::Opcode;
use crate::range_rules::{in_range, lemma_range, lemma_valid_in_range};
use crate::relation::satisfied;
use crate::shared_rules::{
    lemma_flags, lemma_frame, lemma_non_execution, lemma_nonempty_abi, lemma_one_hot,
    lemma_padding, lemma_phase, lemma_progress, rule_cursor, rule_frame, rule_non_execution,
    rule_nonempty_abi, rule_padding, rule_phase, rule_progress,
};
use crate::soundness::{lemma_sections, sections_hold, valid_row};
use crate::step::{replay, Wit};
use crate::step_laws::{boundaries_hold, lemma_boundaries};
use crate::trace::{MethodHash, Trace, TransactionStatement};
use crate::transfer_rules::{
    lemma_addresses, lemma_return, lemma_stack, lemma_transition, rule_control, rule_growth,
    rule_return, rule_stack,
};
use crate::verify::{lemma_slot_is_valid, trace_outcome, verify_outcome};
use crate::witness::{lane, witness_row};
use vstd::arithmetic::power2::lemma2_to64;

verus! {

/// Kind of a coroutine.
pub open spec fn kind_of(id: CoroutineId) -> CoroutineKind {
    match id {
        CoroutineId::Coord(_) => CoroutineKind::Coord,
        CoroutineId::Utxo(_) => CoroutineKind::Utxo,
    }
}

/// Phase of the running coroutine that an opcode needs; none where it needs no single one.
pub open spec fn phase_needed(op: Opcode) -> Option<CurrPhase> {
    match op {
        Opcode::NewUtxo => Some(CurrPhase::Executing),
        Opcode::CallMethod => Some(CurrPhase::Executing),
        Opcode::YieldBegin => Some(CurrPhase::Executing),
        Opcode::EnterConstructor => Some(CurrPhase::CtorEnterPending),
        Opcode::EnterMethod => Some(CurrPhase::MethodEnterPending),
        Opcode::RegisterMethod => Some(CurrPhase::Yield),
        _ => None,
    }
}

/// Kind of the running coroutine that an opcode needs; none where either may run.
pub open spec fn kind_needed(op: Opcode) -> Option<CoroutineKind> {
    match op {
        Opcode::NewUtxo => Some(CoroutineKind::Coord),
        Opcode::CallMethod => Some(CoroutineKind::Coord),
        Opcode::YieldBegin => Some(CoroutineKind::Utxo),
        Opcode::EnterConstructor => Some(CoroutineKind::Utxo),
        Opcode::EnterMethod => Some(CoroutineKind::Utxo),
        Opcode::RegisterMethod => Some(CoroutineKind::Utxo),
        _ => None,
    }
}

/// An opcode finds the running coroutine in the phase and of the kind that it needs. A
/// call and a return hand control to the target: a constructor call to the next UTXO, a
/// method call to a UTXO, a return to a coordinator. Nothing else hands it over.
pub open spec fn legal_turn(w: Wit) -> bool {
    &&& phase_needed(w.opcode) matches Some(phase) ==> w.curr_phase_before == phase
    &&& kind_needed(w.opcode) matches Some(kind) ==> kind_of(w.curr_before) == kind
    &&& w.curr_phase_after == w.opcode.phase_after(w.curr_phase_before)
    &&& w.curr_after == if w.opcode.switches_curr() {
        w.call_target
    } else {
        w.curr_before
    }
    &&& w.opcode == Opcode::Return ==> kind_of(w.curr_after) == CoroutineKind::Coord && (
    w.curr_phase_before == CurrPhase::Executing || w.curr_phase_before == CurrPhase::Yield)
    &&& w.opcode == Opcode::CallMethod ==> kind_of(w.call_target) == CoroutineKind::Utxo
    &&& w.opcode == Opcode::NewUtxo ==> w.call_target == CoroutineId::Utxo(w.next_utxo_id_before)
}

/// A call pushes one frame and a return pops one. Execution needs a frame.
pub open spec fn legal_stack(w: Wit) -> bool {
    let before = residue(w.call_sp_before as int);
    let after = residue(w.call_sp_after as int);
    &&& w.opcode.is_execution() ==> before > 0
    &&& w.opcode.pushes_to_call_stack() ==> after == before + 1
    &&& w.opcode.pops_from_call_stack() ==> after + 1 == before
    &&& !w.opcode.switches_curr() ==> after == before
}

/// Inputs are loaded, then execution runs, then the outputs are scanned with an empty
/// call stack, and then the transaction is finished. Padding changes nothing.
pub open spec fn legal_phase(w: Wit) -> bool {
    let op = w.opcode;
    let before = w.tx_before.phase;
    let after = w.tx_after.phase;
    &&& op.is_execution() ==> before != TxPhase::Finished && after == TxPhase::Running
    &&& op == Opcode::SetStorage || op == Opcode::PreloadMethod ==> before == TxPhase::Loading
        && after == TxPhase::Loading
    &&& op == Opcode::ReadAbi ==> before == TxPhase::Running && after == TxPhase::Running
    &&& op.scans_output() ==> before == TxPhase::Running && after == TxPhase::Running
    &&& op == Opcode::FinishTransaction ==> before == TxPhase::Running && after
        == TxPhase::Finished
    &&& op.scans_output() || op == Opcode::FinishTransaction ==> residue(w.call_sp_before as int)
        == 0
    &&& op == Opcode::Padding ==> after == before
}

/// Every input gets the next UTXO and an ABI: loading of an input needs that the last one
/// has an ABI, and so does execution.
pub open spec fn legal_inputs(w: Wit) -> bool {
    let op = w.opcode;
    &&& op == Opcode::SetStorage ==> w.boundary_utxo == CoroutineId::Utxo(w.next_utxo_id_before)
    &&& op == Opcode::PreloadMethod ==> w.boundary_utxo.packed() + 1 == 2 * w.next_utxo_id_before
    &&& op == Opcode::SetStorage || op.is_execution() ==> w.tx_before.last_input_has_abi
    &&& w.tx_after.last_input_has_abi == if op == Opcode::SetStorage {
        false
    } else if op == Opcode::PreloadMethod {
        true
    } else {
        w.tx_before.last_input_has_abi
    }
    &&& w.next_utxo_id_after == w.next_utxo_id_before + (if op == Opcode::NewUtxo || op
        == Opcode::SetStorage {
        1int
    } else {
        0
    })
}

/// The output scan visits every UTXO once, in order: those with registrations are
/// exported, and their ABI is enumerated at once; the others are skipped.
pub open spec fn legal_outputs(w: Wit) -> bool {
    let op = w.opcode;
    let before = w.tx_before;
    let after = w.tx_after;
    &&& after.output_cursor == before.output_cursor + (if op.scans_output() {
        1int
    } else {
        0
    })
    &&& op.scans_output() ==> w.boundary_utxo == CoroutineId::Utxo(before.output_cursor)
        && before.output_cursor < w.next_utxo_id_before
    &&& op == Opcode::GetStorage ==> w.abi_method_count_before > 0 && after.abi_read_remaining
        == w.abi_method_count_before && after.abi_read_ordinal == 0
    &&& op == Opcode::SkipConsumed ==> w.abi_method_count_before == 0
    &&& op == Opcode::FinishTransaction ==> before.output_cursor == w.next_utxo_id_before
    &&& op == Opcode::ReadAbi ==> before.abi_read_remaining == after.abi_read_remaining + 1
        && after.abi_read_ordinal == before.abi_read_ordinal + 1 && w.boundary_utxo.packed() + 1
        == 2 * before.output_cursor
    &&& op != Opcode::ReadAbi && op != Opcode::Padding ==> before.abi_read_remaining == 0
    &&& op != Opcode::GetStorage && op != Opcode::ReadAbi ==> after.abi_read_remaining
        == before.abi_read_remaining && after.abi_read_ordinal == before.abi_read_ordinal
}

/// A call names a method that its target registered in the target's current ABI
/// generation. A registration enters the log under the current generation of the running
/// UTXO, and a loaded method under that of the input; a yield starts the next generation,
/// without registrations. Enumeration reads the current generation.
pub open spec fn legal_methods(w: Wit) -> bool {
    let op = w.opcode;
    &&& op == Opcode::CallMethod ==> w.abi_generation_address == w.call_target
        && w.enabled_method_log_utxo == w.call_target
    &&& op == Opcode::RegisterMethod ==> w.abi_generation_address == w.curr_before
        && w.enabled_method_log_utxo == w.curr_before
    &&& op == Opcode::PreloadMethod || op == Opcode::ReadAbi ==> w.abi_generation_address
        == w.boundary_utxo && w.enabled_method_log_utxo == w.boundary_utxo
    &&& op.appends_method() || op == Opcode::CallMethod || op == Opcode::ReadAbi
        ==> w.enabled_method_log_generation == w.abi_generation_before
    &&& op.appends_method() ==> w.enabled_method_log_address == w.enabled_method_log_len_before
        && w.abi_method_count_after == w.abi_method_count_before + 1
    &&& op == Opcode::YieldBegin ==> w.abi_generation_address == w.curr_before
        && w.abi_generation_after == w.abi_generation_before + 1 && w.abi_method_count_after == 0
    &&& w.enabled_method_log_len_after == w.enabled_method_log_len_before + (
    if op.appends_method() {
        1int
    } else {
        0
    })
}

/// The start of a constructor needs that none is pending, and records the caller and its
/// handle. Only a return clears the record, and nothing else changes it.
pub open spec fn legal_constructor(w: Wit) -> bool {
    let op = w.opcode;
    &&& op == Opcode::NewUtxo ==> w.pending_ctor_key_before is None && w.pending_ctor_key_after
        == Some((w.curr_before, w.resolver_address.1)) && w.resolver_address.0 == w.curr_before
    &&& op == Opcode::EnterConstructor ==> w.pending_ctor_key_before is Some
    &&& op == Opcode::Return ==> w.pending_ctor_key_after is None
    &&& op != Opcode::NewUtxo && op != Opcode::Return ==> w.pending_ctor_key_after
        == w.pending_ctor_key_before
}

/// A method call goes through a binding of the caller. An input is bound for the running
/// coordinator, and a constructor's return binds its UTXO to the recorded key.
pub open spec fn legal_binding(w: Wit) -> bool {
    let op = w.opcode;
    let binds = op == Opcode::Return && w.pending_ctor_key_before is Some;
    &&& w.resolver_read == (op == Opcode::CallMethod)
    &&& w.resolver_write == (op == Opcode::SetStorage || binds)
    &&& op == Opcode::CallMethod ==> w.resolver_address.0 == w.curr_before && w.resolver_value
        == w.call_target
    &&& op == Opcode::SetStorage ==> w.resolver_address.0 == w.curr_before && w.resolver_value
        == w.boundary_utxo
    &&& binds ==> w.pending_ctor_key_before == Some(w.resolver_address) && w.resolver_value
        == w.curr_before
}

/// An event belongs to the running coroutine, and that of an input or an output to the
/// UTXO at the boundary.
pub open spec fn legal_event(w: Wit) -> bool {
    let op = w.opcode;
    op.has_event() ==> w.event_owner == if op == Opcode::SetStorage || op == Opcode::GetStorage {
        w.boundary_utxo
    } else {
        w.curr_before
    }
}

/// A step that keeps the rules.
pub open spec fn legal(w: Wit) -> bool {
    &&& legal_turn(w)
    &&& legal_stack(w)
    &&& legal_phase(w)
    &&& legal_inputs(w)
    &&& legal_outputs(w)
    &&& legal_methods(w)
    &&& legal_constructor(w)
    &&& legal_binding(w)
    &&& legal_event(w)
}

/// What the parts of the relation on single opcodes say.
spec fn opcode_rules(w: Wit) -> bool {
    &&& rule_new_utxo(w)
    &&& rule_enter_constructor(w)
    &&& rule_yield_begin(w)
    &&& rule_register_method(w)
    &&& rule_return(w)
    &&& rule_call_method(w)
    &&& rule_enter_method(w)
    &&& rule_yield_boundary(w)
    &&& rule_append(w)
    &&& rule_set_storage(w)
    &&& rule_preload_method(w)
    &&& rule_get_storage(w)
    &&& rule_skip_consumed(w)
    &&& rule_finish(w)
    &&& rule_read_abi(w)
}

/// What the parts of the relation on several opcodes say.
spec fn shared_rules(w: Wit) -> bool {
    &&& rule_frame(w)
    &&& rule_nonempty_abi(w)
    &&& rule_padding(w)
    &&& rule_non_execution(w)
    &&& rule_cursor(w)
    &&& rule_phase(w)
    &&& rule_progress(w)
    &&& rule_control(w)
    &&& rule_growth(w)
    &&& rule_stack(w)
}

/// The key that a constructor's return binds, as its columns show it.
proof fn lemma_returned_key(w: Wit)
    requires
        w.pending_ctor_key_before is Some,
    ensures
        w.pending_ctor_key_before == Some(w.resolver_address) <==> (w.resolver_address.0.packed()
            == crate::witness::holder_of(w.pending_ctor_key_before) && w.resolver_address.1.0
            == crate::witness::handle_of(w.pending_ctor_key_before)),
{
    match w.pending_ctor_key_before {
        Some((holder, _)) => {
            lemma_packed_injective(w.resolver_address.0, holder);
        },
        None => {},
    }
}

/// What the parts of the relation say together are the rules.
proof fn lemma_rules(w: Wit)
    ensures
        opcode_rules(w) && shared_rules(w) <==> legal(w),
{
    if w.pending_ctor_key_before is Some {
        lemma_returned_key(w);
    }
}

/// The transaction boundaries of a row of a witness record.
proof fn lemma_boundary_rules(w: Wit, z: Seq<u64>, h: spec_fn([u64; 4], [u64; 8]) -> [u64; 4])
    requires
        shows(z, w),
        ranged(z),
    ensures
        boundaries_hold(z, h) <==> {
            &&& rule_cursor(w)
            &&& rule_phase(w)
            &&& rule_progress(w)
            &&& rule_yield_boundary(w)
            &&& rule_append(w)
            &&& rule_set_storage(w)
            &&& rule_preload_method(w)
            &&& rule_get_storage(w)
            &&& rule_skip_consumed(w)
            &&& rule_finish(w)
            &&& rule_read_abi(w)
            &&& rule_nonempty_abi(w)
        },
{
    lemma_flags(z, w, h);
    lemma_phase(z, w, h);
    lemma_progress(z, w, h);
    lemma_yield_boundary(z, w, h);
    lemma_append(z, w, h);
    lemma_set_storage(z, w, h);
    lemma_preload_method(z, w, h);
    lemma_get_storage(z, w, h);
    lemma_skip_consumed(z, w, h);
    lemma_finish(z, w, h);
    lemma_read_abi(z, w, h);
    lemma_nonempty_abi(z, w, h);
}

/// The relation of a row of a witness record that is in range.
proof fn lemma_section_rules(w: Wit, z: Seq<u64>, h: spec_fn([u64; 4], [u64; 8]) -> [u64; 4])
    requires
        shows(z, w),
        ranged(z),
        satisfied(crate::range_check::range_rows(COLUMN_COUNT as int), z, h),
    ensures
        sections_hold(z, h) <==> {
            &&& opcode_rules(w)
            &&& shared_rules(w)
            &&& satisfied(crate::commitment::commitment_rows(), z, h)
        },
{
    lemma_boundaries(z, h);
    lemma_boundary_rules(w, z, h);
    lemma_one_hot(z, w, h);
    lemma_frame(z, w, h);
    lemma_padding(z, w, h);
    lemma_non_execution(z, w, h);
    lemma_transition(z, w, h);
    lemma_addresses(z, w, h);
    lemma_stack(z, w, h);
    lemma_new_utxo(z, w, h);
    lemma_enter_constructor(z, w, h);
    lemma_yield_begin(z, w, h);
    lemma_register_method(z, w, h);
    lemma_return(z, w, h);
    lemma_call_method(z, w, h);
    lemma_enter_method(z, w, h);
}

/// The lanes of argument and result of a row in range are limbs.
proof fn lemma_lanes(w: Wit, h: spec_fn([u64; 4], [u64; 8]) -> [u64; 4])
    requires
        in_range(witness_row(w, h)),
    ensures
        forall|i: int| 0 <= i < 8 ==> #[trigger] lane(w.expected_arguments, i) <= u32::MAX,
        forall|i: int| 0 <= i < 8 ==> #[trigger] lane(w.expected_result, i) <= u32::MAX,
{
    let z = witness_row(w, h);
    lemma2_to64();
    assert forall|i: int| 0 <= i < 8 implies #[trigger] lane(w.expected_arguments, i)
        <= u32::MAX by {
        let c = COL_CALL_STACK_EXPECTED_ARG_VALUE + i;
        assert(z[c] == lane(w.expected_arguments, i));
    }
    assert forall|i: int| 0 <= i < 8 implies #[trigger] lane(w.expected_result, i)
        <= u32::MAX by {
        let c = COL_CALL_STACK_EXPECTED_RESULT_VALUE + i;
        assert(z[c] == lane(w.expected_result, i));
    }
}

/// A step that the relation accepts: it keeps the rules, the columns of its row are in
/// range, and its argument and result are given by the limbs of field elements.
#[verifier::opaque]
pub open spec fn acceptable(w: Wit, h: spec_fn([u64; 4], [u64; 8]) -> [u64; 4]) -> bool {
    &&& legal(w)
    &&& in_range(witness_row(w, h))
    &&& canonical_lanes(w.expected_arguments)
    &&& canonical_lanes(w.expected_result)
}

/// The row of a witness record meets the relation exactly where the step keeps the rules,
/// the columns of the row are in range, and argument and result are canonical.
pub proof fn law_rows_are_exact(w: Wit, h: spec_fn([u64; 4], [u64; 8]) -> [u64; 4])
    ensures
        valid_row(witness_row(w, h), h) <==> acceptable(w, h),
{
    reveal(acceptable);
    let z = witness_row(w, h);
    law_rows_show_their_records(w, h);
    if valid_row(z, h) {
        lemma_valid_in_range(w, h);
    }
    if in_range(z) {
        let row = crate::commitment::with_commitment(plain_row(w), w.opcode, h);
        assert(z == crate::range_check::with_bits(row, COLUMN_COUNT as int));
        lemma_range(row, h);
        lemma_lanes(w, h);
        lemma_commitment(w, h);
        lemma_section_rules(w, z, h);
        lemma_sections(z, h);
        lemma_rules(w);
    }
}

/// The batches have a slot for every step.
pub(crate) proof fn lemma_covered(n: int, size: int)
    requires
        n >= 0,
        size > 0,
    ensures
        n <= batch_count(n, size) * size < n + size,
{
    vstd::arithmetic::div_mod::lemma_fundamental_div_mod(n + size - 1, size);
    vstd::arithmetic::div_mod::lemma_mod_bound(n + size - 1, size);
    let q = batch_count(n, size);
    assert(size * q == q * size) by (nonlinear_arith);
}

/// Every step of accepted batches keeps the rules.
pub proof fn law_accepted_steps_are_legal(
    steps: Seq<Wit>,
    table: Seq<MethodHash>,
    size: usize,
    expected: Option<Map<u32, [u64; 4]>>,
    statement: Option<TransactionStatement>,
    h: spec_fn([u64; 4], [u64; 8]) -> [u64; 4],
    i: int,
)
    requires
        verify_outcome(steps, table, size, expected, statement, h) is Ok,
        0 <= i < steps.len(),
    ensures
        acceptable(steps[i], h),
{
    let s = size as int;
    let rows = packed_rows(steps, s, h);
    law_check_is_exact(size, rows, packed_origins(steps, s), table_words(table), h);
    lemma_covered(steps.len() as int, s);
    lemma_slot_is_valid(steps, size, table_words(table), h, i);
    law_rows_are_exact(steps[i], h);
}

/// Every step of an accepted trace keeps the rules.
pub proof fn law_accepted_traces_are_legal(
    trace: Trace,
    phase: TxPhase,
    size: usize,
    expected: Option<Map<u32, [u64; 4]>>,
    statement: Option<TransactionStatement>,
    h: spec_fn([u64; 4], [u64; 8]) -> [u64; 4],
    i: int,
)
    requires
        trace_outcome(trace, phase, size, expected, statement, h) is Ok,
        0 <= i < replay(trace.0@, phase, h).len(),
    ensures
        acceptable(replay(trace.0@, phase, h)[i], h),
{
    law_accepted_steps_are_legal(
        replay(trace.0@, phase, h),
        crate::method_table::methods_of(trace.0@, trace.0@.len() as int),
        size,
        expected,
        statement,
        h,
        i,
    );
}

} // verus!
