use starstream_interleaving::ccs::build_relation;
use starstream_interleaving::commitment::assign_from_bus;
use starstream_interleaving::ivc_state::TxPhase;
use starstream_interleaving::layout::{
    COL_ABI_GENERATION_BEFORE, COL_ABI_METHOD_COUNT_AFTER, COL_ABI_METHOD_COUNT_BEFORE,
    COL_ABI_READ_REMAINING_AFTER, COL_CALL_SP_AFTER, COL_CALL_SP_BEFORE,
    COL_CALL_STACK_EXPECTED_RESULT_VALUE, COL_ENABLED_METHOD_LOG_ADDR,
    COL_ENABLED_METHOD_LOG_GENERATION, COL_ENABLED_METHOD_LOG_ORDINAL, COL_ENABLED_METHOD_LOG_UTXO,
    COL_EVENT_OWNER, COL_METHOD_APPEND, COL_OUTPUT_CURSOR_BEFORE, COL_OUTPUT_REMAINING,
    COL_TX_PHASE_AFTER, COL_TX_PHASE_BEFORE,
};
use starstream_interleaving::memory::{preload_tables, MemoryPreload};
use starstream_interleaving::opcode::Opcode;
use starstream_interleaving::range_check::assign_bits;
use starstream_interleaving::relation::check_rowwise;
use starstream_interleaving::statement::check_statement;
use starstream_interleaving::step::normalize_with_phase;
use starstream_interleaving::verify::check_single_rows;
use starstream_interleaving::witness::{assign_stride_columns, build_witness_vector};
use starstream_interleaving::{
    Error, InputUtxo, MethodHash, OutputUtxo, ResourceHandle, StarstreamValue, Step, Trace,
    TransactionStatement, Unsatisfied,
};

/// A stand-in for the compression function: every word of the chain and of the block
/// goes into every word of the output.
fn compress(chain: [u64; 4], block: [u64; 8]) -> [u64; 4] {
    let mut output = [0u64; 4];
    for (lane, word) in output.iter_mut().enumerate() {
        let mut acc: u64 = 0x9e37_79b9_7f4a_7c15 ^ (lane as u64);
        for x in chain.iter().chain(block.iter()) {
            acc = (acc ^ *x).wrapping_mul(0xff51_afd7_ed55_8ccd);
            acc ^= acc >> 29;
        }
        *word = acc;
    }
    output
}

fn verify_witness_rows(rows: &[Vec<u64>], preload: &MemoryPreload) -> Result<(), Error> {
    check_single_rows(rows.to_vec(), preload, &compress)
}

fn fixture() -> (Trace, TransactionStatement) {
    let method = MethodHash([1; 8]);
    let storage = StarstreamValue([11, 12, 13, 14]);
    (
        Trace::new(vec![
            Step::SetStorage {
                storage: storage,
                resource: ResourceHandle(0).into(),
            },
            Step::PreloadMethod { method },
            Step::Return {
                result: StarstreamValue::unit_value().into(),
            },
            Step::GetStorage {
                storage: storage.into(),
            },
            Step::ReadAbi { method },
            Step::FinishTransaction,
        ]),
        TransactionStatement {
            inputs: vec![InputUtxo {
                storage: storage,
                methods: vec![method],
            }],
            outputs: vec![OutputUtxo {
                utxo: 0,
                storage,
                methods: vec![method],
            }],
        },
    )
}

#[test]
fn count_ram_resets_and_outputs_accept_multiple_registrations() {
    let method = MethodHash([1; 8]);
    let (mut trace, _) = fixture();
    trace.0.insert(trace.0.len() - 1, Step::ReadAbi { method });
    trace.0.splice(
        2..2,
        [
            Step::PreloadMethod { method },
            Step::PreloadMethod { method },
            Step::CallMethod {
                resource: ResourceHandle(0),
                method,
                arguments: StarstreamValue::unit_value(),
                result: StarstreamValue::unit_value().into(),
            },
            Step::EnterMethod {
                method,
                arguments: StarstreamValue::unit_value(),
            },
            Step::YieldBegin,
            Step::RegisterMethod { method },
            Step::RegisterMethod { method },
            Step::Return {
                result: StarstreamValue::unit_value().into(),
            },
        ],
    );
    let normalized = normalize_with_phase(&trace, TxPhase::Loading, &compress);
    let rows: Vec<_> = normalized.steps.iter().map(|step| build_witness_vector(step, &compress)).collect();
    // Calls choose the latest duplicate; enumeration chooses each ordinal in
    // the current generation, not the matching methods from before the reset.
    let lookup_addresses = normalized
        .steps
        .iter()
        .filter(|step| matches!(step.opcode, Opcode::CallMethod | Opcode::ReadAbi))
        .map(|step| step.enabled_method_log_address)
        .collect::<Vec<_>>();
    assert_eq!(lookup_addresses, [2, 3, 4]);
    let preload = preload_tables(&normalized.method_table);
    verify_witness_rows(&rows, &preload).unwrap();
    let index = normalized
        .steps
        .iter()
        .position(|s| s.opcode == Opcode::YieldBegin)
        .unwrap();
    assert_eq!(rows[index][COL_ABI_METHOD_COUNT_BEFORE], 3);
    assert_eq!(rows[index][COL_ABI_METHOD_COUNT_AFTER], 0);
    assert_eq!(rows[index + 1][COL_ENABLED_METHOD_LOG_ORDINAL], 0);
    let output = normalized
        .steps
        .iter()
        .position(|s| s.opcode == Opcode::GetStorage)
        .unwrap();
    assert_eq!(rows[output][COL_ABI_METHOD_COUNT_BEFORE], 2);

    let read = output + 1;
    let mut old_generation = rows.clone();
    // Same method, UTXO and ordinal exist in generation zero. All local
    // lookup equalities still hold; the current-generation RAM must reject it.
    old_generation[read][COL_ENABLED_METHOD_LOG_ADDR] = 0;
    old_generation[read][COL_ENABLED_METHOD_LOG_GENERATION] = 0;
    old_generation[read][COL_ABI_GENERATION_BEFORE] = 0;
    assign_bits(&mut old_generation[read]);
    assert!(matches!(
        verify_witness_rows(&old_generation, &preload),
        Err(Error::Unsatisfied(Unsatisfied::Memory { .. }))
    ));

    // Duplicate methods still need distinct ordinals; rereading the first
    // registration cannot stand in for the second one.
    let mut duplicate_read = rows.clone();
    duplicate_read[read + 1][COL_ENABLED_METHOD_LOG_ADDR] = rows[read][COL_ENABLED_METHOD_LOG_ADDR];
    assign_bits(&mut duplicate_read[read + 1]);
    assert!(matches!(
        verify_witness_rows(&duplicate_read, &preload),
        Err(Error::Unsatisfied(Unsatisfied::Memory { .. }))
    ));

    // Locally consistent increments must still read the actual RAM count.
    let mut changed = rows;
    changed[index + 1][COL_ABI_METHOD_COUNT_BEFORE] = 3;
    changed[index + 1][COL_ABI_METHOD_COUNT_AFTER] = 4;
    changed[index + 1][COL_ENABLED_METHOD_LOG_ORDINAL] = 3;
    assign_bits(&mut changed[index + 1]);
    assert!(matches!(
        verify_witness_rows(&changed, &preload),
        Err(Error::Unsatisfied(Unsatisfied::Memory { .. }))
    ));
}

#[test]
fn registration_counts_are_bounded_and_reset_per_generation() {
    let method = MethodHash([1; 8]);
    let (base, _) = fixture();
    for opcode in [Opcode::PreloadMethod, Opcode::RegisterMethod] {
        let mut trace = Trace::new(vec![base.0[0].clone()]);
        if opcode == Opcode::RegisterMethod {
            trace.0.extend([
                Step::PreloadMethod { method },
                Step::CallMethod {
                    resource: ResourceHandle(0),
                    method,
                    arguments: StarstreamValue::unit_value(),
                    result: StarstreamValue::unit_value().into(),
                },
                Step::EnterMethod {
                    method,
                    arguments: StarstreamValue::unit_value(),
                },
                Step::YieldBegin,
            ]);
        }
        let append = if opcode == Opcode::PreloadMethod {
            Step::PreloadMethod { method }
        } else {
            Step::RegisterMethod { method }
        };
        trace.0.extend(std::iter::repeat_n(append, 256));
        let normalized = normalize_with_phase(&trace, TxPhase::Loading, &compress);
        let relation = build_relation();
        // Exercise both sides of the bound without hashing/checking 256 full rows.
        for (from_end, accepted) in [(2, true), (1, false)] {
            let row = build_witness_vector(&normalized.steps[normalized.steps.len() - from_end], &compress);
            assert_eq!(
                row[COL_ABI_METHOD_COUNT_BEFORE],
                256 - from_end as u64
            );
            assert_eq!(
                row[COL_ENABLED_METHOD_LOG_ORDINAL],
                row[COL_ABI_METHOD_COUNT_BEFORE]
            );
            let result = check_rowwise(&relation, &row, &compress);
            if accepted {
                assert_eq!(result, None);
            } else {
                assert!(matches!(result, Some(_)));
            }
        }
    }
}

#[test]
fn finalization_requires_completed_execution_and_cannot_reopen_it() {
    let (trace, _) = fixture();
    let normalized = normalize_with_phase(&trace, TxPhase::Loading, &compress);
    let relation = build_relation();
    for opcode in [Opcode::GetStorage, Opcode::FinishTransaction] {
        let step = normalized
            .steps
            .iter()
            .find(|s| s.opcode == opcode)
            .unwrap();
        for phase in [TxPhase::Loading, TxPhase::Running, TxPhase::Finished] {
            for stack_depth in [0, 1] {
                let mut row = build_witness_vector(step, &compress);
                row[COL_TX_PHASE_BEFORE] = phase as u64;
                row[COL_CALL_SP_BEFORE] = stack_depth;
                row[COL_CALL_SP_AFTER] = stack_depth;
                assign_bits(&mut row);
                let result = check_rowwise(&relation, &row, &compress);
                if phase == TxPhase::Running && stack_depth == 0 {
                    assert_eq!(result, None);
                } else {
                    assert!(
                        matches!(result, Some(_)),
                        "{opcode:?}, {phase:?}, {stack_depth}: {result:?}"
                    );
                }
            }
        }
    }
}

#[test]
fn execution_phase_transition_is_one_way() {
    let (trace, _) = fixture();
    let normalized = normalize_with_phase(&trace, TxPhase::Loading, &compress);
    let step = normalized
        .steps
        .iter()
        .find(|step| step.opcode.is_execution())
        .unwrap();
    let relation = build_relation();
    for before in [TxPhase::Loading, TxPhase::Running, TxPhase::Finished] {
        let mut row = build_witness_vector(step, &compress);
        row[COL_TX_PHASE_BEFORE] = before as u64;
        assign_bits(&mut row);
        let result = check_rowwise(&relation, &row, &compress);
        // Check the row in isolation so continuity cannot mask a missing phase guard.
        if matches!(before, TxPhase::Loading | TxPhase::Running) {
            assert_eq!(result, None);
            assert_eq!(row[COL_TX_PHASE_AFTER], TxPhase::Running as u64);
        } else {
            let Some(row) = result else {
                panic!("unexpected phase check: {result:?}");
            };
            assert_eq!(
                relation[row].label(),
                "transaction boundaries"
            );
        }
    }
}

#[test]
fn transaction_witness_tampering_is_rejected() {
    let (trace, statement) = fixture();
    let normalized = normalize_with_phase(&trace, TxPhase::Loading, &compress);
    let rows = normalized
        .steps
        .iter()
        .map(|step| build_witness_vector(step, &compress))
        .collect::<Vec<_>>();
    let preload = preload_tables(&normalized.method_table);
    verify_witness_rows(&rows, &preload).unwrap();
    check_statement(&rows, &statement).unwrap();

    for (opcode, column, value) in [
        (Opcode::SetStorage, COL_TX_PHASE_BEFORE, 1),
        (Opcode::Return, COL_TX_PHASE_AFTER, 0),
        (Opcode::Return, COL_TX_PHASE_BEFORE, 2),
        (Opcode::PreloadMethod, COL_METHOD_APPEND, 0),
        (Opcode::PreloadMethod, COL_ABI_METHOD_COUNT_AFTER, 0),
        (
            Opcode::PreloadMethod,
            COL_ENABLED_METHOD_LOG_ORDINAL,
            1,
        ),
        (Opcode::GetStorage, COL_EVENT_OWNER, 2),
        (Opcode::ReadAbi, COL_ENABLED_METHOD_LOG_ORDINAL, 1),
        (Opcode::ReadAbi, COL_ENABLED_METHOD_LOG_ADDR, 1),
        (Opcode::ReadAbi, COL_ENABLED_METHOD_LOG_GENERATION, 1),
        (Opcode::ReadAbi, COL_ENABLED_METHOD_LOG_UTXO, 3),
        (Opcode::ReadAbi, COL_ABI_READ_REMAINING_AFTER, 1),
        (Opcode::GetStorage, COL_OUTPUT_REMAINING, 1),
        (Opcode::FinishTransaction, COL_OUTPUT_CURSOR_BEFORE, 0),
    ] {
        let mut changed = rows.clone();
        let index = normalized
            .steps
            .iter()
            .position(|step| step.opcode == opcode)
            .unwrap();
        changed[index][column] = value;
        assign_stride_columns(&mut changed[index]);
        assign_bits(&mut changed[index]);
        assert!(
            matches!(
                verify_witness_rows(&changed, &preload),
                Err(Error::Unsatisfied(_))
            ),
            "{opcode:?}, column {column}"
        );
    }
}

#[test]
fn output_binding_reads_checked_witness_not_source_trace() {
    let (trace, statement) = fixture();
    let normalized = normalize_with_phase(&trace, TxPhase::Loading, &compress);
    let mut rows = normalized
        .steps
        .iter()
        .map(|step| build_witness_vector(step, &compress))
        .collect::<Vec<_>>();
    let preload = preload_tables(&normalized.method_table);
    let index = normalized
        .steps
        .iter()
        .position(|step| step.opcode == Opcode::GetStorage)
        .unwrap();
    rows[index][COL_CALL_STACK_EXPECTED_RESULT_VALUE] += 1;
    assign_from_bus(&mut rows[index], Opcode::GetStorage, &compress);
    assign_bits(&mut rows[index]);
    // A different opaque result is locally valid; the old transaction output isn't.
    verify_witness_rows(&rows, &preload).unwrap();
    assert!(matches!(
        check_statement(&rows, &statement),
        Err(Error::Unsatisfied(Unsatisfied::TransactionStatement))
    ));
}
