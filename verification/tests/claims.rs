use std::collections::BTreeMap;

use starstream_interleaving::batch::Batch;
use starstream_interleaving::claim::{
    check_final_claim, final_state, initial_state, FinalClaimError,
};
use starstream_interleaving::compression::{commit_block, ZERO_CHAIN};
use starstream_interleaving::events::encode;
use starstream_interleaving::field::FIELD_MODULUS;
use starstream_interleaving::ivc_state::{build_ivc_state_continuity_links, TxPhase};
use starstream_interleaving::layout::{
    column_width, COLUMN_COUNT, COL_SEL_NEW_UTXO, ROW_WIDTH,
};
use starstream_interleaving::relation::check_rowwise;
use starstream_interleaving::step::{normalize, normalize_with_phase};
use starstream_interleaving::{
    verify_sat, verify_sat_batched, verify_sat_with_commitments, verify_transaction_sat, Error,
    InputUtxo, MethodHash, OutputUtxo, ResourceHandle, StarstreamValue, Step, Trace,
    TransactionStatement, Unsatisfied,
};

const METHOD: MethodHash = MethodHash([1, 0, 1, 0, 1, 0, 1, 0]);

/// A stand-in for the compression function: every word goes into every word.
fn compress(chain: [u64; 4], block: [u64; 8]) -> [u64; 4] {
    let mut output = [0u64; 4];
    for (lane, word) in output.iter_mut().enumerate() {
        let mut acc: u64 = 0x9e37_79b9_7f4a_7c15 ^ (lane as u64);
        for x in chain.iter().chain(block.iter()) {
            acc = (acc ^ *x).wrapping_mul(0xff51_afd7_ed55_8ccd);
            acc ^= acc >> 29;
        }
        *word = acc;
    }
    output
}

/// A stand-in for the digest of a carried state.
fn state_digest(fields: &[u64]) -> [u8; 32] {
    let mut chain = ZERO_CHAIN;
    for field in fields {
        chain = compress(chain, [*field % FIELD_MODULUS, 1, 2, 3, 4, 5, 6, 7]);
    }
    let mut digest = [0u8; 32];
    for (place, byte) in digest.iter_mut().enumerate() {
        *byte = (chain[place / 8] >> (8 * (place % 8))) as u8;
    }
    digest
}

fn unit() -> StarstreamValue {
    StarstreamValue::unit_value()
}

fn constructor_trace() -> Trace {
    Trace::new(vec![
        Step::NewUtxo {
            arguments: StarstreamValue([1, 2, 3, 4]),
            resource: ResourceHandle(0).into(),
        },
        Step::EnterConstructor { arguments: StarstreamValue([1, 2, 3, 4]) },
        Step::RegisterMethod { method: METHOD },
        Step::Return { result: unit().into() },
        Step::Return { result: unit().into() },
    ])
}

fn claim_of(trace: &Trace, size: usize) -> Vec<u64> {
    let batch = Batch::new(size).unwrap();
    let packed = batch.pack(&normalize(trace, &compress).steps, &compress);
    final_state(&batch, &packed)
}

/// Widths of the columns of a batch: 64 where a column is not bounded.
fn variable_widths(size: usize) -> Vec<usize> {
    (0..ROW_WIDTH * size)
        .map(|column| {
            if column / size >= COLUMN_COUNT {
                1
            } else {
                match column_width(column / size) {
                    0 => 64,
                    width => width,
                }
            }
        })
        .collect()
}

#[test]
fn relation_adapter_preserves_assignments_widths_and_state_endpoints() {
    let steps = normalize(&constructor_trace(), &compress).steps;
    let mut expected_final: Option<Vec<u64>> = None;
    for size in [1, 3, 8] {
        let batch = Batch::new(size).unwrap();
        let packed = batch.pack(&steps, &compress);
        let widths = variable_widths(size);
        let single_links = build_ivc_state_continuity_links();
        assert_eq!(batch.continuity.len(), single_links.len());
        for (carried, link) in batch.continuity.iter().zip(&single_links) {
            assert_eq!(carried.next_step_column, link.next_step_column * size);
            assert_eq!(carried.previous_step_column, link.previous_step_column * size + size - 1);
        }
        for row in &packed.rows {
            assert_eq!(widths.len(), row.len());
            assert_eq!(check_rowwise(&batch.relation, row, &compress), None);
            for (&value, &width) in row.iter().zip(&widths) {
                assert!(width == 64 || value % FIELD_MODULUS < (1u64 << width));
            }
        }
        let actual_initial: Vec<u64> = batch
            .continuity
            .iter()
            .map(|link| packed.rows[0][link.next_step_column])
            .collect();
        assert_eq!(actual_initial, initial_state());
        let claim = final_state(&batch, &packed);
        assert_eq!(expected_final.get_or_insert_with(|| claim.clone()), &claim);
        let digest = state_digest(&claim);
        check_final_claim(&digest, &claim, &digest).unwrap();

        let mut tampered = packed.rows[0].clone();
        tampered[COL_SEL_NEW_UTXO * size] = 2;
        assert!(check_rowwise(&batch.relation, &tampered, &compress).is_some());
    }
}

#[test]
fn final_claim_requires_termination_and_authentication() {
    let claim = claim_of(&constructor_trace(), 3);
    let digest = state_digest(&claim);
    for index in 0..claim.len() {
        let mut altered = claim.clone();
        altered[index] += 1;
        assert!(check_final_claim(&digest, &altered, &state_digest(&altered)).is_err());
    }
    let short = claim[..claim.len() - 1].to_vec();
    assert_eq!(
        check_final_claim(&digest, &short, &state_digest(&short)),
        Err(FinalClaimError::LengthMismatch {
            expected: claim.len(),
            actual: claim.len() - 1,
        })
    );
    let nonterminal = initial_state();
    let authentic = state_digest(&nonterminal);
    assert_eq!(
        check_final_claim(&authentic, &nonterminal, &authentic),
        Err(FinalClaimError::NonterminalStack { actual: 1 })
    );
}

#[test]
fn the_final_state_does_not_depend_on_the_batch_size() {
    let claim = claim_of(&constructor_trace(), 1);
    assert_eq!(claim, vec![1, 1, 0, 0, 0, 0, 0, 0, 1, 1, 0, 0, 0]);
    for size in [2, 3, 5, 8] {
        assert_eq!(claim_of(&constructor_trace(), size), claim);
    }
    let digest = state_digest(&claim);
    assert_eq!(check_final_claim(&digest, &claim, &digest), Ok(()));
    assert_eq!(
        check_final_claim(&digest, &claim, &[0; 32]),
        Err(FinalClaimError::DigestMismatch)
    );
    let mut phase = claim.clone();
    phase[0] = 2;
    assert_eq!(
        check_final_claim(&digest, &phase, &digest),
        Err(FinalClaimError::TransactionPhase { actual: 2 })
    );
    let mut utxo = claim.clone();
    utxo[5] = 3;
    assert_eq!(
        check_final_claim(&digest, &utxo, &digest),
        Err(FinalClaimError::TerminalCoroutineNotCoordinator { actual: 3 })
    );
    // Any representative of zero is an empty call stack.
    let mut wrapped = claim.clone();
    wrapped[7] = FIELD_MODULUS;
    assert_eq!(check_final_claim(&digest, &wrapped, &digest), Ok(()));
}

#[test]
fn an_execution_begins_at_the_initial_state() {
    let batch = Batch::new(2).unwrap();
    let packed = batch.pack(&normalize(&constructor_trace(), &compress).steps, &compress);
    let found: Vec<u64> = build_ivc_state_continuity_links()
        .iter()
        .map(|link| packed.rows[0][link.next_step_column * 2])
        .collect();
    assert_eq!(found, initial_state());
}

#[test]
fn batch_sizes_agree_on_what_is_accepted() {
    let good = constructor_trace();
    let mut bad = constructor_trace();
    bad.0[1] = Step::EnterConstructor { arguments: StarstreamValue([1, 2, 3, 5]) };
    let mut open = constructor_trace();
    open.0.pop();
    for size in [1, 2, 3, 4, 7] {
        assert!(verify_sat_batched(&good, size, &compress).is_ok());
        assert!(verify_sat_batched(&bad, size, &compress).is_err());
        assert!(matches!(
            verify_sat_batched(&open, size, &compress),
            Err(Error::Unsatisfied(Unsatisfied::TerminalCallStackNotEmpty { actual: 1 }))
        ));
    }
    assert!(matches!(
        verify_sat_batched(&good, 0, &compress),
        Err(Error::InvalidBatchSize)
    ));
    assert!(matches!(
        verify_sat_batched(&good, usize::MAX, &compress),
        Err(Error::InvalidBatchSize)
    ));
}

#[test]
fn caller_and_callee_agree_on_values() {
    let call = |result: u64| Step::CallMethod {
        resource: ResourceHandle(0),
        method: METHOD,
        arguments: StarstreamValue([8, 0, 0, 0]),
        result: StarstreamValue([result, 0, 0, 0]).into(),
    };
    let enter = |argument: u64| Step::EnterMethod {
        method: METHOD,
        arguments: StarstreamValue([argument, 0, 0, 0]),
    };
    let back = |result: u64| Step::Return {
        result: StarstreamValue([result, 0, 0, 0]).into(),
    };
    let with = |steps: [Step; 3]| {
        let mut trace = constructor_trace();
        let last = trace.0.pop().unwrap();
        trace.0.extend(steps);
        trace.0.push(last);
        trace
    };
    assert!(verify_sat(&with([call(9), enter(8), back(9)]), &compress).is_ok());
    assert!(matches!(
        verify_sat(&with([call(9), enter(7), back(9)]), &compress),
        Err(Error::Unsatisfied(Unsatisfied::Memory(_)))
    ));
    assert!(matches!(
        verify_sat(&with([call(9), enter(8), back(10)]), &compress),
        Err(Error::Unsatisfied(Unsatisfied::Memory(_)))
    ));
}

#[test]
fn trace_commitments_are_chains_of_encoded_events() {
    let trace = constructor_trace();
    let mut chains: BTreeMap<u32, [u64; 4]> = BTreeMap::new();
    for (step, owner) in trace.0.iter().zip([2u32, 1, 1, 1, 2]) {
        let mut chain = chains.get(&owner).copied().unwrap_or(ZERO_CHAIN);
        for block in encode(step) {
            chain = commit_block(chain, block, &compress);
        }
        chains.insert(owner, chain);
    }
    assert!(verify_sat_with_commitments(&trace, 2, &chains, &compress).is_ok());
    let mut more = chains.clone();
    more.insert(3, ZERO_CHAIN);
    let mut fewer = chains.clone();
    fewer.remove(&1);
    let mut other = chains.clone();
    other.insert(1, [1, 2, 3, 4]);
    for wrong in [more, fewer, other] {
        assert!(matches!(
            verify_sat_with_commitments(&trace, 2, &wrong, &compress),
            Err(Error::Unsatisfied(Unsatisfied::TraceCommitments))
        ));
    }
}

#[test]
fn a_statement_lists_inputs_and_outputs_in_order() {
    let storage = StarstreamValue([7, 0, 0, 0]);
    let trace = Trace::new(vec![
        Step::SetStorage { storage, resource: ResourceHandle(0).into() },
        Step::PreloadMethod { method: METHOD },
        Step::PreloadMethod { method: METHOD },
        Step::Return { result: unit().into() },
        Step::GetStorage { storage: storage.into() },
        Step::ReadAbi { method: METHOD },
        Step::ReadAbi { method: METHOD },
        Step::FinishTransaction,
    ]);
    let statement = TransactionStatement {
        inputs: vec![InputUtxo { storage, methods: vec![METHOD, METHOD] }],
        outputs: vec![OutputUtxo { utxo: 0, storage, methods: vec![METHOD, METHOD] }],
    };
    let mut chains: BTreeMap<u32, [u64; 4]> = BTreeMap::new();
    for (step, owner) in [(0usize, 1u32), (3, 2), (4, 1)] {
        let mut chain = chains.get(&owner).copied().unwrap_or(ZERO_CHAIN);
        for block in encode(&trace.0[step]) {
            chain = commit_block(chain, block, &compress);
        }
        chains.insert(owner, chain);
    }
    assert!(verify_transaction_sat(&trace, 3, &statement, &chains, &compress).is_ok());
    let mut fewer = statement.clone();
    fewer.outputs[0].methods.pop();
    let mut elsewhere = statement.clone();
    elsewhere.outputs[0].utxo = 1;
    let mut empty = statement.clone();
    empty.inputs.clear();
    for wrong in [fewer, elsewhere, empty] {
        assert!(matches!(
            verify_transaction_sat(&trace, 3, &wrong, &chains, &compress),
            Err(Error::Unsatisfied(Unsatisfied::TransactionStatement))
        ));
    }
    // Enumeration is completed before the end.
    let mut early = trace.clone();
    early.0.remove(6);
    assert!(verify_transaction_sat(&early, 3, &statement, &chains, &compress).is_err());
}

#[test]
fn the_depth_of_the_call_stack_counts_open_calls() {
    let steps = normalize_with_phase(&constructor_trace(), TxPhase::Loading, &compress).steps;
    let depths: Vec<u64> = steps.iter().map(|w| w.call_sp_before).collect();
    assert_eq!(depths, vec![1, 2, 2, 2, 1]);
    assert_eq!(steps[4].call_sp_after, 0);
    assert_eq!(steps[0].tx_before.phase, TxPhase::Loading);
    assert_eq!(steps[0].tx_after.phase, TxPhase::Running);
}
