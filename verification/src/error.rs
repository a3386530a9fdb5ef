//! Why a trace is rejected.

use vstd::prelude::*;

use crate::memory::MemoryCheckError;

verus! {

/// An assignment that cannot be checked against a relation.
#[derive(Clone, Debug, PartialEq, Eq)]
pub enum CcsError {
    /// The assignment has another number of columns than the relation.
    LengthMismatch { expected: usize, actual: usize },
}

/// Carried state that changes from one row to the next.
#[derive(Clone, Debug, PartialEq, Eq)]
pub enum ContinuityCheckError {
    Mismatch {
        /// Index of the earlier of the two rows.
        boundary: usize,
        group_name: &'static str,
        previous_step_column: usize,
        next_step_column: usize,
        previous: u64,
        next: u64,
    },
}

/// Why a check did not succeed.
#[derive(Clone, Debug, PartialEq, Eq)]
pub enum Error {
    /// The batch size is zero, or its dimensions do not fit `usize`.
    InvalidBatchSize,
    /// The witness does not satisfy the relation, the memory or the statement.
    Unsatisfied(Unsatisfied),
    /// The assignment of a step could not be checked.
    CcsCheck { step: usize, source: CcsError },
    /// The assignment of a batch could not be checked.
    BatchedCcsCheck { batch: usize, batch_size: usize, source: CcsError },
}

/// What a witness does not satisfy.
#[derive(Clone, Debug, PartialEq, Eq)]
pub enum Unsatisfied {
    /// Transaction inputs, outputs or boundary state do not match the statement.
    TransactionStatement,
    /// Per-instance trace commitments do not match the statement.
    TraceCommitments,
    Constraint {
        /// Index in the original trace, never an index of a padding slot.
        step: usize,
        /// Constraint row in the relation used by this invocation, in which a compression
        /// is one row.
        row: usize,
        constraint: &'static str,
    },
    PaddingConstraint {
        batch: usize,
        slot: usize,
        batch_size: usize,
        row: usize,
        constraint: &'static str,
    },
    /// Single-step coordinates: boundary and columns refer to the unbatched witness.
    Continuity(ContinuityCheckError),
    /// Single-step coordinates: the row is a trace step.
    Memory(MemoryCheckError),
    /// The row is a batch index; columns use the batched layout.
    BatchedMemory { batch_size: usize, source: MemoryCheckError },
    /// The boundary is between batches, not between individual steps.
    BatchedContinuity { batch_size: usize, source: ContinuityCheckError },
    /// The terminal call-stack pointer is not zero.
    TerminalCallStackNotEmpty { actual: u64 },
    /// The terminal coroutine, by its packed identity, is not a coordinator.
    TerminalCoroutineNotCoordinator { actual: u64 },
}

} // verus!
