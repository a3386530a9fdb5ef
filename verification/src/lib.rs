//! Interleaving of the coroutines of a transaction.
//!
//! A transaction is a trace of steps: a coordinator creates UTXO coroutines and calls
//! their methods, and every coroutine commits to the events it takes part in. The
//! crate encodes those events, replays a trace into the rows of a constraint system
//! over the Goldilocks field, and checks the rows, the memory they share and the
//! statement of the transaction.

pub mod abi_laws;
pub mod acceptance;
pub mod assignment;
pub mod batch;
pub mod batching;
pub mod bounds;
pub mod call_laws;
pub mod ccs;
pub mod chain_laws;
pub mod chain_memory;
pub mod claim;
pub mod commitment;
pub mod commitment_rules;
pub mod compression;
pub mod control_laws;
pub mod error;
pub mod event_laws;
pub mod events;
pub mod exactness;
pub mod failure_laws;
pub mod field;
pub mod frame_memory;
pub mod groups;
pub mod handle_laws;
pub mod instance_memory;
pub mod ivc_state;
pub mod layout;
pub mod legality;
pub mod log_memory;
pub mod memory;
pub mod memory_batching;
pub mod memory_laws;
pub mod method_table;
pub mod module_laws;
pub mod opcode;
pub mod outcome_laws;
pub mod output_laws;
pub mod prime;
pub mod protocol;
pub mod quint;
pub mod range_check;
pub mod range_rules;
pub mod record_bounds;
pub mod relation;
pub mod render_laws;
pub mod report_laws;
pub mod selection;
pub mod shared_rules;
pub mod sizes;
pub mod soundness;
pub mod statement;
pub mod statement_laws;
pub mod step;
pub mod step_laws;
pub mod text;
pub mod text_laws;
pub mod trace;
pub mod trace_laws;
pub mod transaction;
pub mod transfer_rules;
pub mod verify;
pub mod witness;

pub use error::{Error, Unsatisfied};
pub use quint::{QuintError, VerificationFailure};
pub use trace::{
    InputUtxo, MethodHash, Out, OutputUtxo, ResourceHandle, StarstreamValue, Step, Trace,
    TransactionStatement,
};
pub use verify::{
    verify_sat, verify_sat_batched, verify_sat_with_commitments, verify_transaction_sat,
    TraceCommitments,
};
