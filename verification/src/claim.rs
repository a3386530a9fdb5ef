//! The carried state at the ends of an execution.
//!
//! A claim of the state after an execution lists the carried columns, in the order of
//! [`carried`]. It goes with a digest: whoever checks the claim compares the digest of the
//! claim with the one that was authenticated.

use vstd::prelude::*;

use crate::acceptance::accepted;
use crate::assignment::law_rows_show_their_records;
use crate::batch::{
    batch_count, batch_links, lemma_carried_bounded, packed_rows, slot_column, valid_batch_size,
    Batch, PackedWitness,
};
use crate::batching::lemma_mapped_at;
use crate::field::{canonical, residue};
use crate::ivc_state::{carried, CoroutineKind, TxPhase, LINK_COUNT};
use crate::layout::{
    COL_CALL_SP_AFTER, COL_CURR_AFTER, COL_ONE, COL_TX_PHASE_AFTER, ROW_WIDTH,
};
use crate::legality::lemma_covered;
use crate::memory::{row_views, value_of};
use crate::relation::value_at;
use crate::step::{replay, Wit};
use crate::trace::{MethodHash, Trace};
use crate::verify::lemma_slot_of_packed;
use crate::witness::witness_row;

verus! {

/// Why a claim of the state after an execution is refused.
#[derive(Clone, Copy, Debug, PartialEq, Eq)]
pub enum FinalClaimError {
    LengthMismatch { expected: usize, actual: usize },
    NonterminalStack { actual: u64 },
    TerminalCoroutineNotCoordinator { actual: u64 },
    TransactionPhase { actual: u64 },
    DigestMismatch,
}

/// Place of the transaction phase among the carried columns.
pub const PHASE_PLACE: usize = 0;

/// Place of the running coroutine among the carried columns.
pub const CURR_PLACE: usize = 5;

/// Place of the call-stack pointer among the carried columns.
pub const STACK_PLACE: usize = 7;

/// The carried state that execution starts from: the first coordinator executes in the
/// phase `Running`, on one frame, with the ABI of the last input in place.
pub open spec fn start() -> Seq<u64> {
    seq![1u64, 1, 0, 0, 0, 2, 0, 1, 0, 0, 0, 0, 0]
}

/// [`start`] as a list.
pub fn initial_state() -> (state: Vec<u64>)
    ensures
        state@ == start(),
        state@.len() == LINK_COUNT,
{
    let state: Vec<u64> = vec![1, 1, 0, 0, 0, 2, 0, 1, 0, 0, 0, 0, 0];
    assert(state@ =~= start());
    state
}

/// The carried state after the last batch.
pub fn final_state(batch: &Batch, packed: &PackedWitness) -> (state: Vec<u64>)
    requires
        batch.wf(),
        packed.rows@.len() > 0,
    ensures
        state@ == Seq::new(
            carried().len(),
            |i: int|
                value_of(
                    row_views(packed.rows@).last(),
                    batch_links(batch.size as int)[i].previous_step_column,
                ),
        ),
{
    let last = &packed.rows[packed.rows.len() - 1];
    assert(row_views(packed.rows@).last() == last@);
    let ghost links = batch_links(batch.size as int);
    let mut state: Vec<u64> = Vec::new();
    let mut i: usize = 0;
    while i < batch.continuity.len()
        invariant
            batch.wf(),
            links == batch_links(batch.size as int),
            i <= batch.continuity@.len(),
            state@ == Seq::new(
                i as nat,
                |k: int| value_of(last@, links[k].previous_step_column),
            ),
        decreases batch.continuity@.len() - i,
    {
        state.push(canonical(value_at(last, batch.continuity[i].previous_step_column)));
        i = i + 1;
        assert(state@ =~= Seq::new(
            i as nat,
            |k: int| value_of(last@, links[k].previous_step_column),
        ));
    }
    assert(state@ =~= Seq::new(
        carried().len(),
        |k: int| value_of(last@, links[k].previous_step_column),
    ));
    state
}

/// Outcome of the check of a claim: its length comes first, then the phase, then the
/// running coroutine, then the call stack, and the digest last.
pub open spec fn claim_outcome(claim: Seq<u64>, authentic: bool) -> Result<(), FinalClaimError> {
    if claim.len() != LINK_COUNT {
        Err(
            FinalClaimError::LengthMismatch {
                expected: LINK_COUNT,
                actual: claim.len() as usize,
            },
        )
    } else if residue(claim[PHASE_PLACE as int] as int) != 1 {
        Err(FinalClaimError::TransactionPhase { actual: claim[PHASE_PLACE as int] })
    } else if residue(claim[CURR_PLACE as int] as int) % 2 != 0 {
        Err(FinalClaimError::TerminalCoroutineNotCoordinator { actual: claim[CURR_PLACE as int] })
    } else if residue(claim[STACK_PLACE as int] as int) != 0 {
        Err(FinalClaimError::NonterminalStack { actual: claim[STACK_PLACE as int] })
    } else if !authentic {
        Err(FinalClaimError::DigestMismatch)
    } else {
        Ok(())
    }
}

/// Whether a claim shows an execution that has ended: wherever the claim lists the
/// transaction phase it is `Running`, wherever it lists the running coroutine that is a
/// coordinator, and wherever it lists the call-stack pointer no frame is left.
pub open spec fn shows_end(claim: Seq<u64>) -> bool {
    forall|i: int|
        0 <= i < claim.len() && i < carried().len() ==> {
            let column = (#[trigger] carried()[i]).previous_step_column;
            &&& column == COL_TX_PHASE_AFTER ==> residue(claim[i] as int)
                == TxPhase::Running.value()
            &&& column == COL_CURR_AFTER ==> residue(claim[i] as int) % 2
                == CoroutineKind::Coord.tag()
            &&& column == COL_CALL_SP_AFTER ==> residue(claim[i] as int) == 0
        }
}

/// A claim is accepted exactly where it has the carried columns, shows an execution
/// that has ended, and is authentic. A refusal names what is wrong with the claim: its
/// length; or the value of a column, where the columns listed before it are in order; or
/// the digest, where every column is in order.
pub proof fn law_claims_are_judged_by_their_columns(claim: Seq<u64>, authentic: bool)
    requires
        claim.len() <= usize::MAX,
    ensures
        claim_outcome(claim, authentic) is Ok <==> {
            &&& claim.len() == carried().len()
            &&& forall|i: int| #![trigger carried()[i]]
                0 <= i < carried().len() && carried()[i].previous_step_column
                    == COL_TX_PHASE_AFTER ==> residue(claim[i] as int)
                    == TxPhase::Running.value()
            &&& forall|i: int| #![trigger carried()[i]]
                0 <= i < carried().len() && carried()[i].previous_step_column == COL_CURR_AFTER
                    ==> residue(claim[i] as int) % 2 == CoroutineKind::Coord.tag()
            &&& forall|i: int| #![trigger carried()[i]]
                0 <= i < carried().len() && carried()[i].previous_step_column
                    == COL_CALL_SP_AFTER ==> residue(claim[i] as int) == 0
            &&& authentic
        },
        claim_outcome(claim, authentic) matches Err(
            FinalClaimError::LengthMismatch { expected, actual },
        ) ==> expected == carried().len() && actual == claim.len() && expected != actual,
        claim_outcome(claim, authentic) is Err && claim.len() != carried().len() ==> claim_outcome(
            claim,
            authentic,
        )->Err_0 is LengthMismatch,
        claim_outcome(claim, authentic) matches Err(FinalClaimError::TransactionPhase { actual })
            ==> exists|i: int|
            0 <= i < claim.len() && claim[i] == actual && (
            #[trigger] carried()[i]).previous_step_column == COL_TX_PHASE_AFTER && residue(
                actual as int,
            ) != TxPhase::Running.value() && shows_end(claim.take(i)),
        claim_outcome(claim, authentic) matches Err(
            FinalClaimError::TerminalCoroutineNotCoordinator { actual },
        ) ==> exists|i: int|
            0 <= i < claim.len() && claim[i] == actual && (
            #[trigger] carried()[i]).previous_step_column == COL_CURR_AFTER && residue(
                actual as int,
            ) % 2 == CoroutineKind::Utxo.tag() && shows_end(claim.take(i)),
        claim_outcome(claim, authentic) matches Err(FinalClaimError::NonterminalStack { actual })
            ==> exists|i: int|
            0 <= i < claim.len() && claim[i] == actual && (
            #[trigger] carried()[i]).previous_step_column == COL_CALL_SP_AFTER && residue(
                actual as int,
            ) != 0 && shows_end(claim.take(i)),
        claim_outcome(claim, authentic) == Err::<(), _>(FinalClaimError::DigestMismatch)
            <==> claim.len() == carried().len() && shows_end(claim) && !authentic,
{
    lemma_places();
    if claim.len() == carried().len() {
        assert(carried()[PHASE_PLACE as int].previous_step_column == COL_TX_PHASE_AFTER);
        assert(carried()[CURR_PLACE as int].previous_step_column == COL_CURR_AFTER);
        assert(carried()[STACK_PLACE as int].previous_step_column == COL_CALL_SP_AFTER);
    }
}

/// The places of the columns that a claim is judged by.
proof fn lemma_places()
    ensures
        carried().len() == LINK_COUNT,
        forall|i: int| #![trigger carried()[i]]
            0 <= i < carried().len() ==> {
                &&& carried()[i].previous_step_column == COL_TX_PHASE_AFTER <==> i == PHASE_PLACE
                &&& carried()[i].previous_step_column == COL_CURR_AFTER <==> i == CURR_PLACE
                &&& carried()[i].previous_step_column == COL_CALL_SP_AFTER <==> i == STACK_PLACE
            },
{
}

/// Whether two digests are equal.
fn same_digest(a: &[u8; 32], b: &[u8; 32]) -> (same: bool)
    ensures
        same == (a@ == b@),
{
    let mut i: usize = 0;
    while i < 32
        invariant
            i <= 32,
            forall|j: int| 0 <= j < i ==> a@[j] == b@[j],
        decreases 32 - i,
    {
        if a[i] != b[i] {
            return false;
        }
        i = i + 1;
    }
    assert(a@ =~= b@);
    true
}

/// Check a claim of the state after an execution: execution ended, in the phase `Running`,
/// and the digest of the claim is the authenticated one.
pub fn check_final_claim(authenticated: &[u8; 32], claim: &Vec<u64>, digest: &[u8; 32]) -> (result:
    Result<(), FinalClaimError>)
    ensures
        result == claim_outcome(claim@, authenticated@ == digest@),
        result is Ok <==> {
            &&& claim@.len() == carried().len()
            &&& forall|i: int| #![trigger carried()[i]]
                0 <= i < carried().len() && carried()[i].previous_step_column
                    == COL_TX_PHASE_AFTER ==> residue(claim@[i] as int)
                    == TxPhase::Running.value()
            &&& forall|i: int| #![trigger carried()[i]]
                0 <= i < carried().len() && carried()[i].previous_step_column == COL_CURR_AFTER
                    ==> residue(claim@[i] as int) % 2 == CoroutineKind::Coord.tag()
            &&& forall|i: int| #![trigger carried()[i]]
                0 <= i < carried().len() && carried()[i].previous_step_column
                    == COL_CALL_SP_AFTER ==> residue(claim@[i] as int) == 0
            &&& authenticated@ == digest@
        },
{
    let count = claim.len();
    proof {
        law_claims_are_judged_by_their_columns(claim@, authenticated@ == digest@);
    }
    if count != LINK_COUNT {
        return Err(
            FinalClaimError::LengthMismatch { expected: LINK_COUNT, actual: count },
        );
    }
    if canonical(claim[PHASE_PLACE]) != 1 {
        return Err(FinalClaimError::TransactionPhase { actual: claim[PHASE_PLACE] });
    }
    if canonical(claim[CURR_PLACE]) % 2 != 0 {
        return Err(
            FinalClaimError::TerminalCoroutineNotCoordinator { actual: claim[CURR_PLACE] },
        );
    }
    if canonical(claim[STACK_PLACE]) != 0 {
        return Err(FinalClaimError::NonterminalStack { actual: claim[STACK_PLACE] });
    }
    if !same_digest(authenticated, digest) {
        return Err(FinalClaimError::DigestMismatch);
    }
    Ok(())
}

/// The first row of every execution finds the carried state of [`start`].
pub proof fn law_executions_begin_at_the_start(
    trace: Trace,
    h: spec_fn([u64; 4], [u64; 8]) -> [u64; 4],
    i: int,
)
    requires
        trace.0@.len() > 0,
        0 <= i < carried().len(),
    ensures
        value_of(
            witness_row(replay(trace.0@, TxPhase::Running, h)[0], h),
            carried()[i].next_step_column,
        ) == start()[i],
{
    law_rows_show_their_records(replay(trace.0@, TxPhase::Running, h)[0], h);
}

/// The carried state that a step leaves.
pub open spec fn left_by(w: Wit, h: spec_fn([u64; 4], [u64; 8]) -> [u64; 4]) -> Seq<u64> {
    Seq::new(carried().len(), |i: int| value_of(witness_row(w, h), carried()[i].previous_step_column))
}

/// Padding leaves what the step before it leaves.
proof fn lemma_padding_leaves(w: Wit, h: spec_fn([u64; 4], [u64; 8]) -> [u64; 4], i: int)
    requires
        0 <= i < carried().len(),
    ensures
        left_by(w.padding(), h)[i] == left_by(w, h)[i],
{
    law_rows_show_their_records(w, h);
    law_rows_show_their_records(w.padding(), h);
}

/// The last slot of the last batch shows what the last step leaves in a column that padding
/// keeps.
proof fn lemma_last_slot(
    steps: Seq<Wit>,
    size: usize,
    h: spec_fn([u64; 4], [u64; 8]) -> [u64; 4],
    column: usize,
)
    requires
        valid_batch_size(size),
        steps.len() > 0,
        column < ROW_WIDTH,
        column != COL_ONE,
        value_of(witness_row(steps.last().padding(), h), column) == value_of(
            witness_row(steps.last(), h),
            column,
        ),
    ensures
        packed_rows(steps, size as int, h).len() > 0,
        value_of(
            packed_rows(steps, size as int, h).last(),
            slot_column(size as int, size - 1, column as int) as usize,
        ) == value_of(witness_row(steps.last(), h), column),
{
    let s = size as int;
    let n = steps.len() as int;
    let count = batch_count(n, s);
    lemma_covered(n, s);
    assert(count > 0) by (nonlinear_arith)
        requires
            0 < n <= count * s,
            0 < s,
    ;
    let b = count - 1;
    let z = packed_rows(steps, s, h)[b];
    assert(b * s + (s - 1) == count * s - 1) by (nonlinear_arith)
        requires
            b == count - 1,
    ;
    lemma_slot_of_packed(steps, s, b, s - 1, h);
    lemma_mapped_at(z, s, s - 1, column);
}

/// The carried state after the last batch is the one that the last step leaves, whatever
/// the size of the batches.
pub proof fn law_final_state_is_that_of_the_last_step(
    steps: Seq<Wit>,
    size: usize,
    h: spec_fn([u64; 4], [u64; 8]) -> [u64; 4],
    i: int,
)
    requires
        valid_batch_size(size),
        steps.len() > 0,
        0 <= i < carried().len(),
    ensures
        packed_rows(steps, size as int, h).len() > 0,
        value_of(
            packed_rows(steps, size as int, h).last(),
            batch_links(size as int)[i].previous_step_column,
        ) == left_by(steps.last(), h)[i],
{
    lemma_carried_bounded(i);
    lemma_padding_leaves(steps.last(), h, i);
    lemma_last_slot(steps, size, h, carried()[i].previous_step_column);
}

/// The state that an accepted execution leaves passes the check of a claim.
pub proof fn law_accepted_executions_have_a_valid_claim(
    steps: Seq<Wit>,
    table: Seq<MethodHash>,
    h: spec_fn([u64; 4], [u64; 8]) -> [u64; 4],
)
    requires
        accepted(steps, table, None, None, h),
    ensures
        claim_outcome(left_by(steps.last(), h), true) is Ok,
{
    let w = steps.last();
    let p = crate::field::FIELD_MODULUS as nat;
    lemma_claimed(w, h);
    vstd::arithmetic::div_mod::lemma_small_mod(1, p);
    vstd::arithmetic::div_mod::lemma_small_mod(0, p);
    vstd::arithmetic::div_mod::lemma_small_mod(w.curr_after.packed() as nat, p);
}

/// An authentic claim of the state that a step leaves is accepted exactly where the step
/// leaves the phase `Running`, a coordinator with the turn, and no frame on the call
/// stack: what an execution leaves that was stopped inside a call is never accepted.
pub proof fn law_only_ended_executions_have_a_valid_claim(
    w: Wit,
    h: spec_fn([u64; 4], [u64; 8]) -> [u64; 4],
    authentic: bool,
)
    requires
        w.call_sp_after < crate::field::FIELD_MODULUS,
    ensures
        claim_outcome(left_by(w, h), authentic) is Ok <==> w.tx_after.phase == TxPhase::Running
            && w.curr_after is Coord && w.call_sp_after == 0 && authentic,
        claim_outcome(left_by(w, h), authentic) matches Err(
            FinalClaimError::NonterminalStack { actual },
        ) ==> actual == w.call_sp_after,
        claim_outcome(left_by(w, h), authentic) matches Err(
            FinalClaimError::TerminalCoroutineNotCoordinator { actual },
        ) ==> w.curr_after is Utxo && actual == w.curr_after.packed(),
{
    let p = crate::field::FIELD_MODULUS as nat;
    lemma_claimed(w, h);
    vstd::arithmetic::div_mod::lemma_small_mod(w.tx_after.phase.value() as nat, p);
    vstd::arithmetic::div_mod::lemma_small_mod(w.call_sp_after as nat, p);
    vstd::arithmetic::div_mod::lemma_small_mod(w.curr_after.packed() as nat, p);
}

/// What a claim of the state that a step leaves says of the end of execution.
proof fn lemma_claimed(w: Wit, h: spec_fn([u64; 4], [u64; 8]) -> [u64; 4])
    ensures
        left_by(w, h).len() == LINK_COUNT,
        left_by(w, h)[PHASE_PLACE as int] == w.tx_after.phase.value(),
        left_by(w, h)[CURR_PLACE as int] == w.curr_after.packed(),
        left_by(w, h)[STACK_PLACE as int] == residue(w.call_sp_after as int),
{
    law_rows_show_their_records(w, h);
}

} // verus!
