use starstream_interleaving::commitment::assign_from_bus;
use starstream_interleaving::error::ContinuityCheckError;
use starstream_interleaving::layout::{
    COL_ABI_METHOD_COUNT_ADDR, COL_CALL_STACK_EXPECTED_ARG_VALUE, COL_NEXT_UTXO_ID_AFTER,
    COL_NEXT_UTXO_ID_BEFORE, COL_SEL_ENTER_CONSTRUCTOR,
};
use starstream_interleaving::memory::{preload_tables, MemoryCheckError, MemoryId, MemoryPreload};
use starstream_interleaving::opcode::Opcode;
use starstream_interleaving::range_check::assign_bits;
use starstream_interleaving::step::normalize;
use starstream_interleaving::verify::check_single_rows;
use starstream_interleaving::witness::build_witness_vector;
use starstream_interleaving::{
    Error, MethodHash, ResourceHandle, StarstreamValue, Step, Trace, Unsatisfied,
};

/// A stand-in for the compression function: every word of the chain and of the block
/// goes into every word of the output.
fn compress(chain: [u64; 4], block: [u64; 8]) -> [u64; 4] {
    let mut output = [0u64; 4];
    for (lane, word) in output.iter_mut().enumerate() {
        let mut acc: u64 = 0x9e37_79b9_7f4a_7c15 ^ (lane as u64);
        for x in chain.iter().chain(block.iter()) {
            acc = (acc ^ *x).wrapping_mul(0xff51_afd7_ed55_8ccd);
            acc ^= acc >> 29;
        }
        *word = acc;
    }
    output
}

fn verify_sat(trace: &Trace) -> Result<(), Error> {
    starstream_interleaving::verify_sat(trace, &compress)
}

fn build_witness_rows(trace: &Trace) -> (Vec<Vec<u64>>, MemoryPreload) {
    let normalized = normalize(trace, &compress);
    let preload = preload_tables(&normalized.method_table);
    let rows = normalized
        .steps
        .iter()
        .map(|step| build_witness_vector(step, &compress))
        .collect();

    (rows, preload)
}

fn verify_witness_rows(rows: &[Vec<u64>], preload: &MemoryPreload) -> Result<(), Error> {
    check_single_rows(rows.to_vec(), preload, &compress)
}

fn constructor_trace(arguments: [u32; 4]) -> Trace {
    Trace::new(vec![
        Step::NewUtxo {
            arguments: StarstreamValue::from(arguments.to_vec()),
            resource: ResourceHandle(0).into(),
        },
        Step::EnterConstructor {
            arguments: StarstreamValue::from(arguments.to_vec()),
        },
        Step::RegisterMethod {
            method: MethodHash([1, 0, 1, 0, 1, 0, 1, 0]),
        },
        Step::Return {
            result: StarstreamValue::unit_value().into(),
        },
        Step::Return {
            result: StarstreamValue::unit_value().into(),
        },
    ])
}

fn minimal_constructor_trace(arguments: [u32; 4]) -> Trace {
    Trace::new(vec![
        Step::NewUtxo {
            arguments: StarstreamValue::from(arguments.to_vec()),
            resource: ResourceHandle(0).into(),
        },
        Step::EnterConstructor {
            arguments: StarstreamValue::from(arguments.to_vec()),
        },
        Step::Return {
            result: StarstreamValue::unit_value().into(),
        },
        Step::Return {
            result: StarstreamValue::unit_value().into(),
        },
    ])
}

fn incomplete_constructor_trace(arguments: [u32; 4]) -> Trace {
    Trace::new(vec![
        Step::NewUtxo {
            arguments: StarstreamValue::from(arguments.to_vec()),
            resource: ResourceHandle(0).into(),
        },
        Step::EnterConstructor {
            arguments: StarstreamValue::from(arguments.to_vec()),
        },
        Step::Return {
            result: StarstreamValue::unit_value().into(),
        },
    ])
}

fn repeated_constructor_entry_trace(arguments: [u32; 4]) -> Trace {
    Trace::new(vec![
        Step::NewUtxo {
            arguments: StarstreamValue::from(arguments.to_vec()),
            resource: ResourceHandle(0).into(),
        },
        Step::EnterConstructor {
            arguments: StarstreamValue::from(arguments.to_vec()),
        },
        Step::EnterConstructor {
            arguments: StarstreamValue::from(arguments.to_vec()),
        },
    ])
}

fn opcode_after_terminal_return_trace() -> Trace {
    let mut trace = minimal_constructor_trace([0, 1, 2, 3]);
    trace.0.extend([
        Step::NewUtxo {
            arguments: StarstreamValue::from(vec![7]),
            resource: ResourceHandle(1).into(),
        },
        Step::EnterConstructor {
            arguments: StarstreamValue::from(vec![7]),
        },
        Step::Return {
            result: StarstreamValue::unit_value().into(),
        },
    ]);
    trace
}

fn method_call_trace(enter_method: bool) -> Trace {
    method_call_trace_with_values(
        enter_method,
        StarstreamValue::from(vec![1, 2, 3, 4]),
        StarstreamValue::unit_value(),
        StarstreamValue::unit_value(),
    )
}

fn method_call_trace_with_values(
    enter_method: bool,
    method_arguments: StarstreamValue,
    expected_result: StarstreamValue,
    actual_result: StarstreamValue,
) -> Trace {
    let method = MethodHash([1, 0, 1, 0, 1, 0, 1, 0]);
    let mut steps = vec![
        Step::NewUtxo {
            arguments: StarstreamValue::from(vec![0, 1, 2, 3]),
            resource: ResourceHandle(0).into(),
        },
        Step::EnterConstructor {
            arguments: StarstreamValue::from(vec![0, 1, 2, 3]),
        },
        Step::RegisterMethod { method },
        Step::Return {
            result: StarstreamValue::unit_value().into(),
        },
        Step::CallMethod {
            resource: ResourceHandle(0),
            method,
            arguments: method_arguments,
            result: expected_result.into(),
        },
    ];

    if enter_method {
        steps.push(Step::EnterMethod {
            method,
            arguments: method_arguments,
        });
    }

    steps.extend([
        Step::Return {
            result: actual_result.into(),
        },
        Step::Return {
            result: StarstreamValue::unit_value().into(),
        },
    ]);

    Trace::new(steps)
}

fn repeated_method_call_without_resume_trace() -> Trace {
    let method = MethodHash([1, 0, 1, 0, 1, 0, 1, 0]);
    let arguments = StarstreamValue::from(vec![1, 2, 3, 4]);
    let mut trace = method_call_trace(true);
    let final_coordinator_return = trace.0.len() - 1;

    trace.0.splice(
        final_coordinator_return..final_coordinator_return,
        [
            Step::CallMethod {
                resource: ResourceHandle(0),
                method,
                arguments: arguments,
                result: StarstreamValue::unit_value().into(),
            },
            Step::EnterMethod { method, arguments },
            Step::Return {
                result: StarstreamValue::unit_value().into(),
            },
        ],
    );

    trace
}

fn unregistered_method_call_trace() -> Trace {
    let mut trace = method_call_trace(true);
    let unregistered_method = MethodHash([2, 0, 1, 0, 1, 0, 1, 0]);

    let Step::CallMethod { method, .. } = &mut trace.0[4] else {
        panic!("method-call trace has a call at step 4");
    };
    *method = unregistered_method;

    let Step::EnterMethod { method, .. } = &mut trace.0[5] else {
        panic!("method-call trace enters the method at step 5");
    };
    *method = unregistered_method;

    trace
}

fn duplicate_method_registration_trace() -> Trace {
    let mut trace = constructor_trace([0, 1, 2, 3]);
    trace.0.insert(
        3,
        Step::RegisterMethod {
            method: MethodHash([1, 0, 1, 0, 1, 0, 1, 0]),
        },
    );
    trace
}

fn method_reyield_trace(final_method: MethodHash) -> Trace {
    let first_method = MethodHash([1, 0, 1, 0, 1, 0, 1, 0]);
    let second_method = MethodHash([2, 0, 1, 0, 1, 0, 1, 0]);
    let arguments = StarstreamValue::from(vec![1, 2, 3, 4]);

    Trace::new(vec![
        Step::NewUtxo {
            arguments: StarstreamValue::from(vec![0, 1, 2, 3]),
            resource: ResourceHandle(0).into(),
        },
        Step::EnterConstructor {
            arguments: StarstreamValue::from(vec![0, 1, 2, 3]),
        },
        Step::RegisterMethod {
            method: first_method,
        },
        Step::Return {
            result: StarstreamValue::unit_value().into(),
        },
        Step::CallMethod {
            resource: ResourceHandle(0),
            method: first_method,
            arguments: arguments,
            result: StarstreamValue::unit_value().into(),
        },
        Step::EnterMethod {
            method: first_method,
            arguments: arguments,
        },
        Step::YieldBegin,
        Step::RegisterMethod {
            method: second_method,
        },
        Step::Return {
            result: StarstreamValue::unit_value().into(),
        },
        Step::CallMethod {
            resource: ResourceHandle(0),
            method: final_method,
            arguments: arguments,
            result: StarstreamValue::unit_value().into(),
        },
        Step::EnterMethod {
            method: final_method,
            arguments,
        },
        Step::Return {
            result: StarstreamValue::unit_value().into(),
        },
        Step::Return {
            result: StarstreamValue::unit_value().into(),
        },
    ])
}

#[test]
fn accepts_utxo_constructor() {
    verify_sat(&constructor_trace([0, 1, 2, 3])).unwrap();
}

#[test]
fn accepts_repeated_constructor_arguments() {
    verify_sat(&constructor_trace([7, 7, 7, 7])).unwrap();
}

#[test]
fn accepts_minimal_utxo_constructor() {
    verify_sat(&minimal_constructor_trace([0, 1, 2, 3])).unwrap();
}

#[test]
fn rejects_nonempty_terminal_call_stack() {
    assert!(matches!(
        verify_sat(&incomplete_constructor_trace([0, 1, 2, 3])),
        Err(Error::Unsatisfied(
            Unsatisfied::TerminalCallStackNotEmpty { .. }
        ))
    ));
}

#[test]
fn rejects_opcode_after_terminal_return() {
    assert!(matches!(
        verify_sat(&opcode_after_terminal_return_trace()),
        Err(Error::Unsatisfied(Unsatisfied::Constraint {
            step: 4,
            constraint: "execution requires nonempty call stack",
            ..
        }))
    ));
}

#[test]
fn rejects_repeated_constructor_entry() {
    assert!(matches!(
        verify_sat(&repeated_constructor_entry_trace([0, 1, 2, 3])),
        Err(Error::Unsatisfied(Unsatisfied::Constraint {
            step: 2,
            constraint: "enter constructor constraints",
            ..
        }))
    ));
}

#[test]
fn accepts_method_call_with_expected_result() {
    verify_sat(&method_call_trace_with_values(
        true,
        StarstreamValue::from(vec![1, 2, 3, 4]),
        StarstreamValue::from(vec![7, 8]),
        StarstreamValue::from(vec![7, 8]),
    ))
    .unwrap();
}

#[test]
fn accepts_repeated_method_call_without_resume() {
    verify_sat(&repeated_method_call_without_resume_trace()).unwrap();
}

#[test]
fn accepts_duplicate_method_registration() {
    verify_sat(&duplicate_method_registration_trace()).unwrap();
}

#[test]
fn accepts_method_replacement_after_yield() {
    verify_sat(&method_reyield_trace(MethodHash([2, 0, 1, 0, 1, 0, 1, 0]))).unwrap();
}

#[test]
fn rejects_enter_method_with_wrong_method() {
    let mut trace = method_call_trace(true);
    trace.0[5] = Step::EnterMethod {
        method: MethodHash([2, 0, 1, 0, 1, 0, 1, 0]),
        arguments: StarstreamValue::from(vec![1, 2, 3, 4]),
    };

    assert!(matches!(
        verify_sat(&trace),
        Err(Error::Unsatisfied(Unsatisfied::Memory(
            MemoryCheckError::ReadMismatch {
                memory: MemoryId::CallStackExpectedMethod,
                row: 5,
                ..
            }
        )))
    ));
}

#[test]
fn rejects_call_to_unregistered_method() {
    let error = verify_sat(&unregistered_method_call_trace()).unwrap_err();

    assert!(
        matches!(
            &error,
            Error::Unsatisfied(Unsatisfied::Memory(MemoryCheckError::ZeroReadMismatch {
                memory: MemoryId::EnabledMethodLogUtxo,
                row: 4,
                ..
            }))
        ),
        "{error:?}"
    );
}

#[test]
fn rejects_stale_method_after_yield() {
    let error =
        verify_sat(&method_reyield_trace(MethodHash([1, 0, 1, 0, 1, 0, 1, 0]))).unwrap_err();

    assert!(
        matches!(
            &error,
            Error::Unsatisfied(Unsatisfied::Memory(MemoryCheckError::ZeroReadMismatch {
                memory: MemoryId::EnabledMethodLogUtxo,
                row: 9,
                ..
            }))
        ),
        "{error:?}"
    );
}

#[test]
fn rejects_call_through_unbound_resource_handle() {
    let mut trace = method_call_trace(true);
    let Step::CallMethod { resource, .. } = &mut trace.0[4] else {
        panic!("method-call trace has a call at step 4");
    };
    *resource = ResourceHandle(1);

    assert!(matches!(
        verify_sat(&trace),
        Err(Error::Unsatisfied(Unsatisfied::Constraint {
            step: 4,
            constraint: "call method constraints",
            ..
        }))
    ));
}

#[test]
fn rejects_return_with_wrong_result() {
    assert!(matches!(
        verify_sat(&method_call_trace_with_values(
            true,
            StarstreamValue::from(vec![1, 2, 3, 4]),
            StarstreamValue::from(vec![7, 8]),
            StarstreamValue::from(vec![7, 9]),
        )),
        Err(Error::Unsatisfied(Unsatisfied::Memory(
            MemoryCheckError::ReadMismatch {
                memory: MemoryId::CallStackExpectedResult,
                row: 6,
                ..
            }
        )))
    ));
}

#[test]
fn rejects_return_without_entering_method() {
    assert!(matches!(
        verify_sat(&method_call_trace(false)),
        Err(Error::Unsatisfied(Unsatisfied::Constraint {
            step: 5,
            constraint: "return constraints",
            ..
        }))
    ));
}

#[test]
fn rejects_return_before_entering_constructor() {
    let trace = Trace::new(vec![
        Step::NewUtxo {
            arguments: StarstreamValue::from(vec![0, 1, 2, 3]),
            resource: ResourceHandle(0).into(),
        },
        Step::Return {
            result: StarstreamValue::unit_value().into(),
        },
    ]);

    assert!(matches!(
        verify_sat(&trace),
        Err(Error::Unsatisfied(Unsatisfied::Constraint {
            step: 1,
            constraint: "return constraints",
            ..
        }))
    ));
}

#[test]
fn rejects_yield_from_coordinator() {
    let trace = Trace::new(vec![
        Step::YieldBegin,
        Step::Return {
            result: StarstreamValue::unit_value().into(),
        },
    ]);

    assert!(matches!(
        verify_sat(&trace),
        Err(Error::Unsatisfied(Unsatisfied::Constraint {
            step: 0,
            constraint: "yield begin constraints",
            ..
        }))
    ));
}

#[test]
fn rejects_constructor_with_mismatched_arguments() {
    let mut trace = constructor_trace([1, 2, 3, 4]);
    trace.0[1] = Step::EnterConstructor {
        arguments: StarstreamValue::from(vec![0, 1, 2, 3]),
    };

    assert!(matches!(
        verify_sat(&trace),
        Err(Error::Unsatisfied(Unsatisfied::Memory(
            MemoryCheckError::ReadMismatch {
                memory: MemoryId::CallStackExpectedArgument,
                row: 1,
                ..
            }
        )))
    ));
}

#[test]
fn rejects_tampered_opcode_selector() {
    let trace = constructor_trace([0, 1, 2, 3]);
    let (mut rows, preload) = build_witness_rows(&trace);
    verify_witness_rows(&rows, &preload).unwrap();

    rows[0][COL_SEL_ENTER_CONSTRUCTOR] = 1;

    assert!(matches!(
        verify_witness_rows(&rows, &preload),
        Err(Error::Unsatisfied(Unsatisfied::Constraint {
            step: 0,
            constraint: "opcode selectors are one-hot",
            ..
        }))
    ));
}

#[test]
fn rejects_out_of_range_witness_column() {
    let trace = constructor_trace([0, 1, 2, 3]);
    let (mut rows, preload) = build_witness_rows(&trace);

    rows[0][COL_ABI_METHOD_COUNT_ADDR] = (1 << 32);
    assign_bits(&mut rows[0]);

    assert!(matches!(
        verify_witness_rows(&rows, &preload),
        Err(Error::Unsatisfied(Unsatisfied::Constraint {
            step: 0,
            constraint: "COL_ABI_METHOD_COUNT_ADDR",
            ..
        }))
    ));
}

#[test]
fn rejects_tampered_memory_value() {
    let trace = constructor_trace([0, 1, 2, 3]);
    let (mut rows, preload) = build_witness_rows(&trace);
    verify_witness_rows(&rows, &preload).unwrap();

    rows[1][COL_CALL_STACK_EXPECTED_ARG_VALUE] += 1;
    assign_from_bus(&mut rows[1], Opcode::EnterConstructor, &compress);
    assign_bits(&mut rows[1]);

    let error = verify_witness_rows(&rows, &preload).unwrap_err();
    assert!(
        matches!(
            &error,
            Error::Unsatisfied(Unsatisfied::Memory(MemoryCheckError::ReadMismatch {
                memory: MemoryId::CallStackExpectedArgument,
                row: 1,
                ..
            }))
        ),
        "{error:?}"
    );
}

#[test]
fn rejects_tampered_continuity_value() {
    let trace = constructor_trace([0, 1, 2, 3]);
    let (mut rows, preload) = build_witness_rows(&trace);
    verify_witness_rows(&rows, &preload).unwrap();

    for row in &mut rows[1..] {
        row[COL_NEXT_UTXO_ID_BEFORE] += 1;
        row[COL_NEXT_UTXO_ID_AFTER] += 1;
        assign_bits(row);
    }

    assert!(matches!(
        verify_witness_rows(&rows, &preload),
        Err(Error::Unsatisfied(Unsatisfied::Continuity(
            ContinuityCheckError::Mismatch {
                boundary: 0,
                group_name: "next_utxo_id_continuity",
                previous_step_column: COL_NEXT_UTXO_ID_AFTER,
                next_step_column: COL_NEXT_UTXO_ID_BEFORE,
                ..
            }
        )))
    ));
}
