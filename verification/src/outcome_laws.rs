//! What the outcome of a check says of its arguments.

use vstd::prelude::*;

use crate::batch::{
    batch_count, batch_rows, lemma_slot_of, origin_of, packed_origins, packed_rows, real_steps,
    relation_failure, slot_of, valid_batch_size,
};
use crate::error::{Error, Unsatisfied};
use crate::ivc_state::TxPhase;
use crate::module_laws::{same_input, same_output, same_statement};
use crate::protocol::{has_roots, law_check_is_the_protocol};
use crate::relation::{first_failure, lemma_first_failure};
use crate::statement::{stated_inputs, stated_outputs};
use crate::step::{replay, Wit};
use crate::trace::{Trace, TransactionStatement};
use crate::verify::trace_outcome;

verus! {

/// A check with trace commitments succeeds exactly where it succeeds without them and they
/// are the roots of the trace: one for each coroutine that emits an event, and no others.
/// Where only they are wrong, it says so.
pub proof fn law_commitments_are_checked(
    trace: Trace,
    phase: TxPhase,
    size: usize,
    roots: Map<u32, [u64; 4]>,
    statement: Option<TransactionStatement>,
    h: spec_fn([u64; 4], [u64; 8]) -> [u64; 4],
)
    requires
        trace.0@.len() <= u32::MAX,
    ensures
        trace_outcome(trace, phase, size, Some(roots), statement, h) is Ok <==> trace_outcome(
            trace,
            phase,
            size,
            None,
            statement,
            h,
        ) is Ok && has_roots(trace.0@, phase, h, roots),
        trace_outcome(trace, phase, size, None, statement, h) is Ok && !has_roots(
            trace.0@,
            phase,
            h,
            roots,
        ) ==> trace_outcome(trace, phase, size, Some(roots), statement, h) == Err::<(), Error>(
            Error::Unsatisfied(Unsatisfied::TraceCommitments),
        ),
{
    if valid_batch_size(size) {
        law_check_is_the_protocol(trace, phase, size, Some(roots), statement, h);
        law_check_is_the_protocol(trace, phase, size, None, statement, h);
    }
}

/// A trace is accepted with one statement and one map of trace commitments: with another
/// statement the check refuses the statement, whatever the commitments, and with other
/// commitments it refuses these.
pub proof fn law_statement_and_commitments_are_bound(
    trace: Trace,
    phase: TxPhase,
    size: usize,
    roots: Map<u32, [u64; 4]>,
    other_roots: Map<u32, [u64; 4]>,
    statement: TransactionStatement,
    other: TransactionStatement,
    h: spec_fn([u64; 4], [u64; 8]) -> [u64; 4],
)
    requires
        trace_outcome(trace, phase, size, Some(roots), Some(statement), h) is Ok,
    ensures
        stated_inputs(other) != stated_inputs(statement) || stated_outputs(other)
            != stated_outputs(statement) ==> trace_outcome(
            trace,
            phase,
            size,
            Some(other_roots),
            Some(other),
            h,
        ) == Err::<(), Error>(Error::Unsatisfied(Unsatisfied::TransactionStatement)),
        !same_statement(Some(other), Some(statement)) ==> trace_outcome(
            trace,
            phase,
            size,
            Some(other_roots),
            Some(other),
            h,
        ) == Err::<(), Error>(Error::Unsatisfied(Unsatisfied::TransactionStatement)),
        other_roots != roots ==> trace_outcome(
            trace,
            phase,
            size,
            Some(other_roots),
            Some(statement),
            h,
        ) == Err::<(), Error>(Error::Unsatisfied(Unsatisfied::TraceCommitments)),
{
    if stated_inputs(other) == stated_inputs(statement) && stated_outputs(other) == stated_outputs(
        statement,
    ) {
        assert(stated_inputs(other).len() == stated_inputs(statement).len());
        assert(stated_outputs(other).len() == stated_outputs(statement).len());
        assert forall|i: int| 0 <= i < other.inputs@.len() implies same_input(
            #[trigger] other.inputs@[i],
            statement.inputs@[i],
        ) by {
            assert(stated_inputs(other)[i] == stated_inputs(statement)[i]);
        }
        assert forall|i: int| 0 <= i < other.outputs@.len() implies same_output(
            #[trigger] other.outputs@[i],
            statement.outputs@[i],
        ) by {
            assert(stated_outputs(other)[i] == stated_outputs(statement)[i]);
        }
    }
}

/// No more steps than there are can be real.
proof fn lemma_real_steps(steps: Seq<Wit>, n: int)
    requires
        0 <= n <= steps.len(),
    ensures
        0 <= real_steps(steps, n) <= n,
    decreases n,
{
    if n > 0 {
        lemma_real_steps(steps, n - 1);
    }
}

/// Whether an error is one of the relation, in the coordinates of some steps.
spec fn of_relation(error: Error, n: int) -> bool {
    match error {
        Error::Unsatisfied(Unsatisfied::Constraint { step, .. }) => step < n,
        Error::Unsatisfied(Unsatisfied::PaddingConstraint { .. }) => true,
        _ => false,
    }
}

/// Packed steps fail the relation at a step or at padding.
proof fn lemma_relation_error(
    steps: Seq<Wit>,
    size: usize,
    h: spec_fn([u64; 4], [u64; 8]) -> [u64; 4],
    b: int,
)
    requires
        steps.len() <= usize::MAX,
        valid_batch_size(size),
        0 <= b <= batch_count(steps.len() as int, size as int),
    ensures
        relation_failure(
            size,
            packed_rows(steps, size as int, h),
            packed_origins(steps, size as int),
            h,
            b,
        ) matches Some(error) ==> of_relation(error, steps.len() as int),
    decreases batch_count(steps.len() as int, size as int) - b,
{
    let s = size as int;
    let rows = packed_rows(steps, s, h);
    let origins = packed_origins(steps, s);
    let count = batch_count(steps.len() as int, s);
    if b < count {
        lemma_first_failure(batch_rows(s), rows[b], h, 0);
        match first_failure(batch_rows(s), rows[b], h, 0) {
            Some(row) => {
                lemma_slot_of(s, row as int);
                let slot = slot_of(s, row as int);
                let index = b * s + slot;
                assert(0 <= index < count * s) by (nonlinear_arith)
                    requires
                        0 <= b < count,
                        0 <= slot < s,
                        index == b * s + slot,
                ;
                assert(origins[index] == origin_of(steps, index));
                if index < steps.len() {
                    lemma_real_steps(steps, index);
                }
            },
            None => {
                lemma_relation_error(steps, size, h, b + 1);
            },
        }
    }
}

/// Errors of batches of more than one slot name batches: failures of memory and of the
/// carried state come in the coordinates of the batches, and a failed equation names a step
/// of the trace or padding.
pub proof fn law_errors_of_batches_name_batches(
    trace: Trace,
    phase: TxPhase,
    size: usize,
    expected: Option<Map<u32, [u64; 4]>>,
    statement: Option<TransactionStatement>,
    h: spec_fn([u64; 4], [u64; 8]) -> [u64; 4],
)
    requires
        trace.0@.len() <= usize::MAX,
        size > 1,
    ensures
        ({
            let outcome = trace_outcome(trace, phase, size, expected, statement, h);
            &&& !(outcome matches Err(Error::Unsatisfied(Unsatisfied::Memory(_))))
            &&& !(outcome matches Err(Error::Unsatisfied(Unsatisfied::Continuity(_))))
            &&& outcome matches Err(Error::Unsatisfied(Unsatisfied::Constraint { step, .. }))
                ==> step < trace.0@.len()
        }),
{
    let steps = replay(trace.0@, phase, h);
    if valid_batch_size(size) {
        lemma_relation_error(steps, size, h, 0);
    }
}

} // verus!
