use std::collections::BTreeMap;

use starstream_interleaving::compression::{commit_block, ZERO_CHAIN};
use starstream_interleaving::events::encode;
use starstream_interleaving::field::FIELD_MODULUS;
use starstream_interleaving::ivc_state::{CoroutineId, TxPhase};
use starstream_interleaving::step::normalize_with_phase;
use starstream_interleaving::{
    verify_sat, verify_sat_batched, verify_transaction_sat, Error, InputUtxo, MethodHash,
    OutputUtxo, ResourceHandle, StarstreamValue, Step, Trace, TransactionStatement, Unsatisfied,
};

const FIRST: MethodHash = MethodHash([1, 0, 0, 0, 0, 0, 0, 0]);
const SECOND: MethodHash = MethodHash([2, 0, 0, 0, 0, 0, 0, 0]);

/// A stand-in for the compression function: every word goes into every word.
fn compress(chain: [u64; 4], block: [u64; 8]) -> [u64; 4] {
    let mut output = [0u64; 4];
    for (lane, word) in output.iter_mut().enumerate() {
        let mut acc: u64 = 0x9e37_79b9_7f4a_7c15 ^ (lane as u64);
        for x in chain.iter().chain(block.iter()) {
            acc = (acc ^ *x).wrapping_mul(0xff51_afd7_ed55_8ccd);
            acc ^= acc >> 29;
        }
        *word = acc;
    }
    output
}

fn unit() -> StarstreamValue {
    StarstreamValue::unit_value()
}

fn value(word: u64) -> StarstreamValue {
    StarstreamValue([word, 0, 0, 0])
}

fn call(resource: u32, method: MethodHash) -> Step {
    Step::CallMethod {
        resource: ResourceHandle(resource),
        method,
        arguments: unit(),
        result: unit().into(),
    }
}

/// Two inputs; a method of the first one is called, which then offers nothing any more.
fn two_inputs(enumerated: [MethodHash; 3]) -> Trace {
    let mut steps = vec![
        Step::SetStorage { storage: value(7), resource: ResourceHandle(0).into() },
        Step::PreloadMethod { method: FIRST },
        Step::SetStorage { storage: value(8), resource: ResourceHandle(1).into() },
        Step::PreloadMethod { method: FIRST },
        Step::PreloadMethod { method: SECOND },
        Step::PreloadMethod { method: FIRST },
        call(0, FIRST),
        Step::EnterMethod { method: FIRST, arguments: unit() },
        Step::YieldBegin,
        Step::Return { result: unit().into() },
        Step::Return { result: unit().into() },
        Step::SkipConsumed,
        Step::GetStorage { storage: value(8).into() },
    ];
    for method in enumerated {
        steps.push(Step::ReadAbi { method });
    }
    steps.push(Step::FinishTransaction);
    Trace::new(steps)
}

/// Chains of the events of [`two_inputs`]: the UTXOs are 1 and 3, the coordinator is 2.
fn chains_of(trace: &Trace) -> BTreeMap<u32, [u64; 4]> {
    let owners = [(0usize, 1u32), (2, 3), (6, 2), (7, 1), (8, 1), (9, 1), (10, 2), (12, 3)];
    let mut chains: BTreeMap<u32, [u64; 4]> = BTreeMap::new();
    for (step, owner) in owners {
        let mut chain = chains.get(&owner).copied().unwrap_or(ZERO_CHAIN);
        for block in encode(&trace.0[step]) {
            chain = commit_block(chain, block, &compress);
        }
        chains.insert(owner, chain);
    }
    chains
}

fn statement(methods: [MethodHash; 3]) -> TransactionStatement {
    TransactionStatement {
        inputs: vec![
            InputUtxo { storage: value(7), methods: vec![FIRST] },
            InputUtxo { storage: value(8), methods: vec![FIRST, SECOND, FIRST] },
        ],
        outputs: vec![OutputUtxo { utxo: 1, storage: value(8), methods: methods.to_vec() }],
    }
}

#[test]
fn outputs_are_the_survivors_with_their_registrations_in_order() {
    let order = [FIRST, SECOND, FIRST];
    let trace = two_inputs(order);
    let chains = chains_of(&trace);
    for size in [1, 4, 7] {
        assert!(
            verify_transaction_sat(&trace, size, &statement(order), &chains, &compress).is_ok()
        );
    }
    // Enumeration in another order is refused, though the statement follows it.
    let swapped = [FIRST, FIRST, SECOND];
    assert!(matches!(
        verify_transaction_sat(&two_inputs(swapped), 1, &statement(swapped), &chains, &compress),
        Err(Error::Unsatisfied(Unsatisfied::Memory(_)))
    ));
    // A survivor is not skipped, and a consumed UTXO is not exported.
    let mut skipped = trace.clone();
    skipped.0[12] = Step::SkipConsumed;
    assert!(
        verify_transaction_sat(&skipped, 1, &statement(order), &chains, &compress).is_err()
    );
    let mut exported = trace.clone();
    exported.0[11] = Step::GetStorage { storage: value(7).into() };
    assert!(
        verify_transaction_sat(&exported, 1, &statement(order), &chains, &compress).is_err()
    );
}

#[test]
fn a_call_names_a_method_of_the_bound_utxo() {
    let order = [FIRST, SECOND, FIRST];
    for (resource, method) in [(0, SECOND), (2, FIRST)] {
        let mut trace = two_inputs(order);
        trace.0[6] = call(resource, method);
        trace.0[7] = Step::EnterMethod { method, arguments: unit() };
        let chains = chains_of(&trace);
        assert!(
            verify_transaction_sat(&trace, 1, &statement(order), &chains, &compress).is_err()
        );
    }
}

#[test]
fn values_are_made_of_field_elements() {
    let with = |word: u64| {
        Trace::new(vec![
            Step::NewUtxo { arguments: value(word), resource: ResourceHandle(0).into() },
            Step::EnterConstructor { arguments: value(word) },
            Step::RegisterMethod { method: FIRST },
            Step::Return { result: unit().into() },
            Step::Return { result: unit().into() },
        ])
    };
    assert!(verify_sat(&with(FIELD_MODULUS - 1), &compress).is_ok());
    for size in [1, 3] {
        assert!(matches!(
            verify_sat_batched(&with(FIELD_MODULUS), size, &compress),
            Err(Error::Unsatisfied(Unsatisfied::Constraint { step: 0, .. }))
        ));
    }
}

#[test]
fn a_constructor_has_no_result() {
    let with = |result: StarstreamValue| {
        Trace::new(vec![
            Step::NewUtxo { arguments: unit(), resource: ResourceHandle(0).into() },
            Step::EnterConstructor { arguments: unit() },
            Step::RegisterMethod { method: FIRST },
            Step::Return { result: result.into() },
            Step::Return { result: unit().into() },
        ])
    };
    assert!(verify_sat(&with(unit()), &compress).is_ok());
    assert!(matches!(
        verify_sat(&with(value(1)), &compress),
        Err(Error::Unsatisfied(Unsatisfied::Memory(_)))
    ));
}

#[test]
fn the_handle_of_an_input_can_be_renamed() {
    let order = [FIRST, SECOND, FIRST];
    let mut renamed = two_inputs(order);
    renamed.0[0] = Step::SetStorage { storage: value(7), resource: ResourceHandle(9).into() };
    // The event of a loaded input is its storage alone.
    assert_eq!(encode(&renamed.0[0]), encode(&two_inputs(order).0[0]));
    // The call still goes through the handle that is gone.
    let chains = chains_of(&renamed);
    assert!(
        verify_transaction_sat(&renamed, 1, &statement(order), &chains, &compress).is_err()
    );
    renamed.0[6] = call(9, FIRST);
    assert_ne!(encode(&renamed.0[6]), encode(&two_inputs(order).0[6]));
    let chains = chains_of(&renamed);
    let before = chains_of(&two_inputs(order));
    // Only the caller commits to the handle.
    assert_ne!(chains[&2], before[&2]);
    assert_eq!((chains[&1], chains[&3]), (before[&1], before[&3]));
    for size in [1, 3] {
        assert!(
            verify_transaction_sat(&renamed, size, &statement(order), &chains, &compress).is_ok()
        );
    }
}

#[test]
fn a_call_goes_to_the_last_binding() {
    let mut trace = two_inputs([FIRST, SECOND, FIRST]);
    let target = |trace: &Trace| {
        normalize_with_phase(trace, TxPhase::Loading, &compress).steps[6].call_target
    };
    assert_eq!(target(&trace), CoroutineId::Utxo(0));
    trace.0[2] = Step::SetStorage { storage: value(8), resource: ResourceHandle(0).into() };
    assert_eq!(target(&trace), CoroutineId::Utxo(1));
    trace.0[6] = call(5, FIRST);
    assert_eq!(target(&trace), CoroutineId::Coord(0));
}

#[test]
fn failures_in_batches_name_batches() {
    let swapped = [FIRST, FIRST, SECOND];
    let trace = two_inputs(swapped);
    let chains = chains_of(&trace);
    assert!(matches!(
        verify_transaction_sat(&trace, 4, &statement(swapped), &chains, &compress),
        Err(Error::Unsatisfied(Unsatisfied::BatchedMemory { batch_size: 4, .. }))
    ));
}

#[test]
fn the_statement_is_refused_before_the_commitments() {
    let order = [FIRST, SECOND, FIRST];
    let trace = two_inputs(order);
    let chains = chains_of(&trace);
    let other = BTreeMap::new();
    assert!(matches!(
        verify_transaction_sat(&trace, 2, &statement([FIRST; 3]), &other, &compress),
        Err(Error::Unsatisfied(Unsatisfied::TransactionStatement))
    ));
    assert!(matches!(
        verify_transaction_sat(&trace, 2, &statement(order), &other, &compress),
        Err(Error::Unsatisfied(Unsatisfied::TraceCommitments))
    ));
    assert!(verify_transaction_sat(&trace, 2, &statement(order), &chains, &compress).is_ok());
}

#[test]
fn an_encoding_tells_events_apart() {
    let steps = [
        Step::SetStorage { storage: unit(), resource: ResourceHandle(0).into() },
        Step::SetStorage { storage: value(1), resource: ResourceHandle(0).into() },
        Step::GetStorage { storage: unit().into() },
        Step::NewUtxo { arguments: unit(), resource: ResourceHandle(0).into() },
        Step::NewUtxo { arguments: unit(), resource: ResourceHandle(1).into() },
        Step::EnterConstructor { arguments: unit() },
        Step::YieldBegin,
        Step::RegisterMethod { method: FIRST },
        Step::RegisterMethod { method: SECOND },
        Step::Return { result: unit().into() },
        call(0, FIRST),
        call(1, FIRST),
        call(0, SECOND),
        Step::EnterMethod { method: FIRST, arguments: unit() },
        Step::EnterMethod { method: FIRST, arguments: value(1) },
    ];
    for (i, left) in steps.iter().enumerate() {
        for (j, right) in steps.iter().enumerate() {
            assert_eq!(encode(left) == encode(right), i == j);
        }
    }
}

#[test]
fn a_chain_tells_blocks_apart_where_nothing_collides() {
    let block = |word: u64| [word, 0, 0, 0, 0, 0, 0, 0];
    let chain = |words: [u64; 2], fold: fn([u64; 4], [u64; 8]) -> [u64; 4]| {
        let first = commit_block(ZERO_CHAIN, block(words[0]), &fold);
        commit_block(first, block(words[1]), &fold)
    };
    assert_ne!(chain([1, 2], compress), chain([2, 1], compress));
    assert_eq!(chain([1, 2], compress), chain([1, 2], compress));
    // A compression that is constant collides everywhere.
    assert_eq!(chain([1, 2], |_, _| [5; 4]), chain([2, 1], |_, _| [5; 4]));
}
