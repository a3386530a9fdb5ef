use starstream_interleaving::batch::{Batch, PackedWitness};
use starstream_interleaving::ccs::build_relation;
use starstream_interleaving::commitment::assign_from_bus;
use starstream_interleaving::error::ContinuityCheckError;
use starstream_interleaving::layout::{
    COL_ABI_METHOD_COUNT_READ, COL_ABI_METHOD_COUNT_WRITE, COL_CALL_STACK_POP, COL_CALL_STACK_PUSH,
    COL_CALL_STACK_TOP, COL_EVENT_ACTIVE, COL_IN, COL_METHOD_APPEND, COL_METHOD_HASH_VALUE,
    COL_METHOD_LOOKUP, COL_NEXT_UTXO_ID_AFTER, COL_NEXT_UTXO_ID_BEFORE, COL_ONE, COL_OUT,
    COL_PENDING_CTOR_PRESENT_AFTER, COL_RESOURCE_RESOLVER_READ, COL_RESOURCE_RESOLVER_WRITE,
    COL_SEL_PADDING, ROW_WIDTH,
};
use starstream_interleaving::memory::{
    build_memory_layout, preload_tables, MemoryCheckError, MemoryPortActivation, MemoryPreload,
};
use starstream_interleaving::opcode::Opcode;
use starstream_interleaving::range_check::assign_bits;
use starstream_interleaving::step::normalize;
use starstream_interleaving::verify::check_single_rows;
use starstream_interleaving::witness::build_witness_vector;
use starstream_interleaving::{
    verify_sat_batched, Error, MethodHash, ResourceHandle, StarstreamValue, Step, Trace,
    Unsatisfied,
};

/// A stand-in for the compression function: every word of the chain and of the block
/// goes into every word of the output.
fn compress(chain: [u64; 4], block: [u64; 8]) -> [u64; 4] {
    let mut output = [0u64; 4];
    for (lane, word) in output.iter_mut().enumerate() {
        let mut acc: u64 = 0x9e37_79b9_7f4a_7c15 ^ (lane as u64);
        for x in chain.iter().chain(block.iter()) {
            acc = (acc ^ *x).wrapping_mul(0xff51_afd7_ed55_8ccd);
            acc ^= acc >> 29;
        }
        *word = acc;
    }
    output
}

fn build_witness_rows(trace: &Trace) -> (Vec<Vec<u64>>, MemoryPreload) {
    let normalized = normalize(trace, &compress);
    let preload = preload_tables(&normalized.method_table);
    let rows = normalized
        .steps
        .iter()
        .map(|step| build_witness_vector(step, &compress))
        .collect();

    (rows, preload)
}

fn verify_witness_rows(rows: &[Vec<u64>], preload: &MemoryPreload) -> Result<(), Error> {
    check_single_rows(rows.to_vec(), preload, &compress)
}

fn constructor_trace(arguments: [u32; 4]) -> Trace {
    Trace::new(vec![
        Step::NewUtxo {
            arguments: StarstreamValue::from(arguments.to_vec()),
            resource: ResourceHandle(0).into(),
        },
        Step::EnterConstructor {
            arguments: StarstreamValue::from(arguments.to_vec()),
        },
        Step::RegisterMethod {
            method: MethodHash([1, 0, 1, 0, 1, 0, 1, 0]),
        },
        Step::Return {
            result: StarstreamValue::unit_value().into(),
        },
        Step::Return {
            result: StarstreamValue::unit_value().into(),
        },
    ])
}

fn method_call_trace(enter_method: bool) -> Trace {
    method_call_trace_with_values(
        enter_method,
        StarstreamValue::from(vec![1, 2, 3, 4]),
        StarstreamValue::unit_value(),
        StarstreamValue::unit_value(),
    )
}

fn method_call_trace_with_values(
    enter_method: bool,
    method_arguments: StarstreamValue,
    expected_result: StarstreamValue,
    actual_result: StarstreamValue,
) -> Trace {
    let method = MethodHash([1, 0, 1, 0, 1, 0, 1, 0]);
    let mut steps = vec![
        Step::NewUtxo {
            arguments: StarstreamValue::from(vec![0, 1, 2, 3]),
            resource: ResourceHandle(0).into(),
        },
        Step::EnterConstructor {
            arguments: StarstreamValue::from(vec![0, 1, 2, 3]),
        },
        Step::RegisterMethod { method },
        Step::Return {
            result: StarstreamValue::unit_value().into(),
        },
        Step::CallMethod {
            resource: ResourceHandle(0),
            method,
            arguments: method_arguments,
            result: expected_result.into(),
        },
    ];

    if enter_method {
        steps.push(Step::EnterMethod {
            method,
            arguments: method_arguments,
        });
    }

    steps.extend([
        Step::Return {
            result: actual_result.into(),
        },
        Step::Return {
            result: StarstreamValue::unit_value().into(),
        },
    ]);

    Trace::new(steps)
}

#[test]
fn memory_gates_exclude_padding_structurally() {
    // Explicitly reviewed derived gates, each constrained to non-padding
    // selectors. New activation schemes need review.
    let derived = [
        COL_CALL_STACK_PUSH,
        COL_CALL_STACK_POP,
        COL_CALL_STACK_TOP,
        COL_METHOD_LOOKUP,
        COL_METHOD_APPEND,
        COL_EVENT_ACTIVE,
        COL_RESOURCE_RESOLVER_READ,
        COL_RESOURCE_RESOLVER_WRITE,
        COL_ABI_METHOD_COUNT_READ,
        COL_ABI_METHOD_COUNT_WRITE,
    ];
    for memory in build_memory_layout() {
        for port in &memory.ports {
            let excludes_padding = match port.activation {
                MemoryPortActivation::Always => false,
                MemoryPortActivation::When(gate) => {
                    Opcode::all().iter().any(|op| {
                        *op != Opcode::Padding && op.selector() == gate
                    }) || derived.contains(&gate)
                }
                MemoryPortActivation::Unless(gate) => gate == COL_SEL_PADDING,
            };
            assert!(
                excludes_padding,
                "unreviewed padding activation: {:?}: {port:?}",
                memory.id
            );
        }
    }
}

#[test]
fn padding_does_not_access_memory() {
    let normalized = normalize(&method_call_trace(true), &compress);
    let preload = preload_tables(&normalized.method_table);
    let memory = build_memory_layout();
    let mut rows = Vec::new();
    for step in normalized.steps {
        let mut pad = build_witness_vector(&step.padding_after(), &compress);
        // Assignment regression check; the structural test above audits
        // which selector-derived gates the memory layout may use.
        for entry in &memory {
            for port in &entry.ports {
                let active = match port.activation {
                    MemoryPortActivation::Always => true,
                    MemoryPortActivation::When(gate) => pad[gate] != 0,
                    MemoryPortActivation::Unless(gate) => pad[gate] == 0,
                };
                assert!(!active, "padding activates {:?}: {port:?}", entry.id);
            }
        }
        // Unused commitment buses need not match RAM contents.
        for column in (COL_IN..COL_IN + 4).chain(COL_OUT..COL_OUT + 4) {
            pad[column] = 7;
        }
        assign_from_bus(&mut pad, Opcode::Padding, &compress);
        assign_bits(&mut pad);
        rows.extend([build_witness_vector(&step, &compress), pad]);
    }
    verify_witness_rows(&rows, &preload).unwrap();
}

fn replace_slot(packed: &mut PackedWitness, size: usize, index: usize, row: &[u64]) {
    for (column, &value) in row.iter().enumerate() {
        if column != COL_ONE || index.is_multiple_of(size) {
            packed.rows[index / size][column * size + index % size] = value;
        }
    }
}

#[test]
fn rejects_invalid_batch_sizes_and_empty_execution() {
    let trace = constructor_trace([1, 2, 3, 4]);
    for size in [0, usize::MAX] {
        assert!(matches!(
            verify_sat_batched(&trace, size, &compress),
            Err(Error::InvalidBatchSize)
        ));
    }
    // Constraint-count overflow is reachable even when column-count
    // multiplication fits; reject it before trying to allocate the batch.
    let relation = build_relation();
    let size = usize::MAX / relation.len() + 1;
    assert!(
        ROW_WIDTH
            .checked_mul(size)
            .is_some()
    );
    assert!(matches!(Batch::new(size), Err(Error::InvalidBatchSize)));
    assert!(matches!(
        verify_sat_batched(&Trace::new(vec![]), 3, &compress),
        Err(Error::Unsatisfied(
            Unsatisfied::TerminalCallStackNotEmpty { .. }
        ))
    ));
}

#[test]
fn real_step_indices_survive_interspersed_padding() {
    for size in [1, 3, 8] {
        let normalized = normalize(&method_call_trace(false), &compress);
        let preload = preload_tables(&normalized.method_table);
        let mut steps = Vec::new();
        for step in normalized.steps {
            let padding = step.padding_after();
            steps.extend([step, padding]);
        }
        let batch = Batch::new(size).unwrap();
        assert!(matches!(
            batch.check(&batch.pack(&steps, &compress), &preload, &compress),
            Err(Error::Unsatisfied(Unsatisfied::Constraint {
                step: 5,
                constraint: "return constraints",
                ..
            }))
        ));
    }
}

#[test]
fn padding_can_stutter_during_and_after_execution() {
    let normalized = normalize(&method_call_trace(true), &compress);
    let preload = preload_tables(&normalized.method_table);
    let mut padded = Vec::new();
    for step in normalized.steps {
        let padding = step.padding_after();
        let second_padding = padding.padding_after();
        padded.extend([step, padding, second_padding]);
    }
    for size in [1, 3, 8] {
        let batch = Batch::new(size).unwrap();
        batch.check(&batch.pack(&padded, &compress), &preload, &compress).unwrap();
    }
}

#[test]
fn rejects_tampered_padding_state() {
    let normalized = normalize(&constructor_trace([1, 2, 3, 4]), &compress);
    let preload = preload_tables(&normalized.method_table);
    let batch = Batch::new(8).unwrap();
    let mut packed = batch.pack(&normalized.steps, &compress);
    // Last slot has no outgoing link: preservation must be constrained
    // inside the padding row itself.
    let mut pad = build_witness_vector(&normalized.steps.last().unwrap().padding_after(), &compress);
    pad[COL_PENDING_CTOR_PRESENT_AFTER] = 1;
    assign_bits(&mut pad);
    replace_slot(&mut packed, batch.size, batch.size - 1, &pad);
    assert!(matches!(
        batch.check(&packed, &preload, &compress),
        Err(Error::Unsatisfied(Unsatisfied::PaddingConstraint {
            batch: 0,
            slot: 7,
            batch_size: 8,
            constraint: "padding preserves state",
            ..
        }))
    ));
}

#[test]
fn rejects_broken_internal_and_external_continuity() {
    let (mut rows, preload) = build_witness_rows(&constructor_trace([1, 2, 3, 4]));
    let normalized = normalize(&constructor_trace([1, 2, 3, 4]), &compress);
    // Preserve every row's local allocator transition, but break boundary 1.
    for row in &mut rows[2..] {
        row[COL_NEXT_UTXO_ID_BEFORE] += 1;
        row[COL_NEXT_UTXO_ID_AFTER] += 1;
        assign_bits(row);
    }
    let internal = Batch::new(3).unwrap();
    let mut packed = internal.pack(&normalized.steps, &compress);
    for (index, row) in rows.iter().enumerate() {
        replace_slot(&mut packed, internal.size, index, row);
    }
    assert!(matches!(
        internal.check(&packed, &preload, &compress),
        Err(Error::Unsatisfied(Unsatisfied::Constraint {
            constraint: "within-batch continuity",
            step: 2,
            ..
        }))
    ));
    let external = Batch::new(2).unwrap();
    let mut packed = external.pack(&normalized.steps, &compress);
    for (index, row) in rows.iter().enumerate() {
        replace_slot(&mut packed, external.size, index, row);
    }
    // Keep trailing padding consistent with the altered final state.
    let mut pad = build_witness_vector(&normalized.steps.last().unwrap().padding_after(), &compress);
    pad[COL_NEXT_UTXO_ID_BEFORE] += 1;
    pad[COL_NEXT_UTXO_ID_AFTER] += 1;
    assign_bits(&mut pad);
    replace_slot(&mut packed, external.size, 5, &pad);
    assert!(matches!(
        external.check(&packed, &preload, &compress),
        Err(Error::Unsatisfied(Unsatisfied::BatchedContinuity {
            batch_size: 2,
            source: ContinuityCheckError::Mismatch { boundary: 0, .. },
        }))
    ));
}

#[test]
fn rejects_tampered_memory_across_slots_and_batches() {
    let (mut rows, preload) = build_witness_rows(&method_call_trace(true));
    let normalized = normalize(&method_call_trace(true), &compress);
    rows[5][COL_METHOD_HASH_VALUE] += 1;
    assign_from_bus(&mut rows[5], Opcode::EnterMethod, &compress);
    assign_bits(&mut rows[5]);
    // Call is slot 4, entry is slot 5: different batches at size 5,
    // the same batch at size 8.
    for size in [1, 5, 8] {
        let batch = Batch::new(size).unwrap();
        let mut packed = batch.pack(&normalized.steps, &compress);
        replace_slot(&mut packed, size, 5, &rows[5]);
        let error = batch.check(&packed, &preload, &compress).unwrap_err();
        match error {
            Error::Unsatisfied(Unsatisfied::Memory(
                MemoryCheckError::ReadMismatch { row: 5, .. },
            )) => assert_eq!(size, 1),
            Error::Unsatisfied(Unsatisfied::BatchedMemory {
                batch_size,
                source: MemoryCheckError::ReadMismatch { row, .. },
            }) => {
                assert_eq!(batch_size, size);
                assert_eq!(row, 5 / size);
                assert_ne!(size, 1);
            }
            other => panic!("unexpected memory diagnostic: {other:?}"),
        }
    }
}
