use starstream_interleaving::field::FIELD_MODULUS;
use starstream_interleaving::quint::{
    centered_word, check_pinned_version, conclude_test, conclude_typecheck, diagnose,
    installed_version, itf_pattern, itf_prefix, module_file, pinned_version, ran_any_test, render,
    render_value, render_with_statement, test_arguments, typecheck_arguments, Rejection, RunOutput,
    FIELD_HALF,
};
use starstream_interleaving::{
    InputUtxo, MethodHash, OutputUtxo, QuintError, ResourceHandle, StarstreamValue, Step, Trace,
    TransactionStatement, VerificationFailure,
};

const METHOD: MethodHash = MethodHash([1, 0, 2, 0, 3, 0, 0xdead_beef, 0xffff_ffff]);

fn value(words: [u64; 4]) -> StarstreamValue {
    StarstreamValue(words)
}

fn constructor() -> Trace {
    Trace::new(vec![
        Step::NewUtxo {
            arguments: value([0, 1, 2, 3]),
            resource: ResourceHandle(7).into(),
        },
        Step::EnterConstructor {
            arguments: value([0, 1, 2, 3]),
        },
        Step::RegisterMethod { method: METHOD },
        Step::Return {
            result: StarstreamValue::unit_value().into(),
        },
        Step::Return {
            result: StarstreamValue::unit_value().into(),
        },
    ])
}

fn output(success: bool, stdout: &str, stderr: &str) -> RunOutput {
    RunOutput {
        success,
        stdout: stdout.to_string(),
        stderr: stderr.to_string(),
    }
}

fn report(stdout: &str, stderr: &str) -> VerificationFailure {
    VerificationFailure {
        generated_source: "module m {}\n".to_string(),
        stdout: stdout.to_string(),
        stderr: stderr.to_string(),
    }
}

#[test]
fn opaque_roots_use_canonical_centered_words() {
    let root = StarstreamValue([0, FIELD_HALF, FIELD_HALF + 1, FIELD_MODULUS - 1]);
    assert_eq!(
        render_value(&root),
        "List(0, 9223372034707292160, -9223372034707292160, -1)"
    );
    for word in [0, 1, FIELD_HALF, FIELD_HALF + 1, FIELD_MODULUS - 1] {
        let centered = centered_word(word);
        let restored = if centered < 0 {
            i128::from(centered) + i128::from(FIELD_MODULUS)
        } else {
            i128::from(centered)
        };
        assert_eq!(restored, i128::from(word));
    }
    for invalid in [FIELD_MODULUS, u64::MAX] {
        assert!(centered_word(invalid) > FIELD_HALF as i64);
    }
}

#[test]
fn a_trace_is_rendered_step_by_line() {
    let module = render(&constructor());
    let expected = concat_lines(&[
        "module replay_trace {",
        "  import starstream.* from \"./starstream\"",
        "",
        "  action init = { state' = new_tx }",
        "",
        "  run execution_satisfies_spec = init",
        "    .then(new_utxo(List(0, 1, 2, 3), { value: 7 }))",
        "    .then(enter_constructor(List(0, 1, 2, 3)))",
        "    .then(register_method(\"0000000000000001000000000000000200000000\
         00000003ffffffffdeadbeef\"))",
        "    .then(return({ value: List(0, 0, 0, 0) }))",
        "    .then(return({ value: List(0, 0, 0, 0) }))",
        "    .then(execution_complete)",
        "}",
    ]);
    assert_eq!(module.source, expected);
    assert_eq!(module.step_lines, vec![7, 8, 9, 10, 11]);
    assert_eq!(module.complete_line, 12);
}

fn concat_lines(lines: &[&str]) -> String {
    let mut text = String::new();
    for line in lines {
        text.push_str(line);
        text.push('\n');
    }
    text
}

#[test]
fn every_kind_of_step_is_rendered() {
    let trace = Trace::new(vec![
        Step::SetStorage {
            storage: value([9, 0, 0, FIELD_MODULUS - 2]),
            resource: ResourceHandle(3).into(),
        },
        Step::PreloadMethod { method: METHOD },
        Step::YieldBegin,
        Step::CallMethod {
            resource: ResourceHandle(3),
            method: METHOD,
            arguments: value([1, 2, 3, 4]),
            result: value([5, 6, 7, 8]).into(),
        },
        Step::EnterMethod {
            method: METHOD,
            arguments: value([1, 2, 3, 4]),
        },
        Step::GetStorage {
            storage: value([9, 0, 0, 1]).into(),
        },
        Step::ReadAbi { method: METHOD },
        Step::SkipConsumed,
        Step::FinishTransaction,
    ]);
    let hex = METHOD.to_hex();
    let source = render(&trace).source;
    let lines: Vec<&str> = source.lines().skip(6).collect();
    assert_eq!(lines[0], "    .then(set_storage(List(9, 0, 0, -2), { value: 3 }))");
    assert_eq!(lines[1], format!("    .then(preload_method(\"{hex}\"))"));
    assert_eq!(lines[2], "    .then(yield_begin)");
    assert_eq!(
        lines[3],
        format!(
            "    .then(call_method(3, \"{hex}\", List(1, 2, 3, 4), {{ value: List(5, 6, 7, 8) }}))"
        )
    );
    assert_eq!(
        lines[4],
        format!("    .then(enter_method(\"{hex}\", List(1, 2, 3, 4)))")
    );
    assert_eq!(lines[5], "    .then(get_storage({ value: List(9, 0, 0, 1) }))");
    assert_eq!(lines[6], format!("    .then(read_abi(\"{hex}\"))"));
    assert_eq!(lines[7], "    .then(skip_consumed)");
    assert_eq!(lines[8], "    .then(finish_transaction)");
}

#[test]
fn a_statement_is_rendered_into_the_initial_state() {
    let hex = METHOD.to_hex();
    let statement = TransactionStatement {
        inputs: vec![
            InputUtxo {
                storage: value([1, 0, 0, 0]),
                methods: vec![METHOD, METHOD],
            },
            InputUtxo {
                storage: value([2, 0, 0, 0]),
                methods: vec![],
            },
        ],
        outputs: vec![OutputUtxo {
            utxo: 1,
            storage: value([3, 0, 0, 0]),
            methods: vec![METHOD],
        }],
    };
    let module = render_with_statement(&Trace::new(vec![Step::FinishTransaction]), Some(&statement));
    assert_eq!(
        module.source.lines().nth(3).unwrap(),
        format!(
            "  action init = {{ state' = new_transaction(List({{ storage: List(1, 0, 0, 0), \
             methods: List(\"{hex}\", \"{hex}\") }}, {{ storage: List(2, 0, 0, 0), methods: \
             List() }}), List({{ utxo: 1, storage: List(3, 0, 0, 0), methods: List(\"{hex}\") \
             }})) }}"
        )
    );
    assert_eq!(module.source.lines().nth(7).unwrap(), "    .then(transaction_complete)");
    assert_eq!(module.complete_line, 8);
}

#[test]
fn a_rejection_is_attributed_to_its_step() {
    let module = render(&constructor());
    let error = "Error [QNT513]: not enabled\n      at /tmp/x/replay_0.qnt:9:11\n";
    assert_eq!(
        diagnose(&report(error, ""), &module),
        Some(Rejection::Step(2))
    );
    // The report may come on the other stream, behind other lines.
    assert_eq!(
        diagnose(&report("running\r\n", &format!("noise\n{error}")), &module),
        Some(Rejection::Step(2))
    );
    // The location is looked for in four lines.
    let far = "Error [QNT513]\n1\n2\n3\nat a:9:1\n";
    assert_eq!(diagnose(&report(far, ""), &module), Some(Rejection::Step(2)));
    let too_far = "Error [QNT513]\n1\n2\n3\n4\nat a:9:1\n";
    assert_eq!(diagnose(&report(too_far, ""), &module), None);
    // A line that is no number of a line is passed over.
    let second = "Error [QNT513]\nat nowhere\nat a:+8:1\n";
    assert_eq!(diagnose(&report(second, ""), &module), Some(Rejection::Step(1)));
}

#[test]
fn an_incomplete_execution_is_no_rejected_step() {
    let module = render(&constructor());
    assert_eq!(
        diagnose(&report("Error [QNT511]: assertion failed", ""), &module),
        Some(Rejection::Incomplete)
    );
    assert_eq!(
        diagnose(&report("Error [QNT513]\nat a:12:5", ""), &module),
        Some(Rejection::Incomplete)
    );
    assert_eq!(diagnose(&report("Error [QNT513]\nat a:13:5", ""), &module), None);
    assert_eq!(diagnose(&report("all is well", ""), &module), None);
}

#[test]
fn the_outcome_of_a_replay_follows_its_runs() {
    let trace = constructor();
    let module = render(&trace);
    assert_eq!(conclude_typecheck(&module, &output(true, "", "")), Ok(()));
    let typecheck = conclude_typecheck(&module, &output(false, "a", "b")).unwrap_err();
    assert_eq!(
        typecheck,
        QuintError::Typecheck(Box::new(VerificationFailure {
            generated_source: module.source.clone(),
            stdout: "a".to_string(),
            stderr: "b".to_string(),
        }))
    );
    assert_eq!(conclude_test(&trace, &module, &output(true, "", ""), true), Ok(()));
    assert!(matches!(
        conclude_test(&trace, &module, &output(true, "", ""), false),
        Err(QuintError::NotRun(_))
    ));
    match conclude_test(
        &trace,
        &module,
        &output(false, "Error [QNT513]\nat a:8:1", ""),
        true,
    ) {
        Err(QuintError::RejectedStep { index, step, failure }) => {
            assert_eq!(index, 1);
            assert_eq!(*step, trace.0[1]);
            assert_eq!(failure.generated_source, module.source);
        }
        other => panic!("unexpected outcome {other:?}"),
    }
    assert!(matches!(
        conclude_test(&trace, &module, &output(false, "Error [QNT511]", ""), true),
        Err(QuintError::IncompleteExecution(_))
    ));
    assert!(matches!(
        conclude_test(&trace, &module, &output(false, "", "crash"), false),
        Err(QuintError::Rejected(_))
    ));
}

#[test]
fn a_failure_shows_the_streams_that_are_not_blank() {
    assert_eq!(
        report("out\n", " \t\n").to_text(),
        "--- generated module ---\nmodule m {}\n--- quint stdout ---\nout\n"
    );
    assert_eq!(
        report("\u{2003}\n", "err").to_text(),
        "--- generated module ---\nmodule m {}\n--- quint stderr ---\nerr"
    );
}

#[test]
fn runs_get_their_arguments() {
    assert_eq!(module_file(10), "replay_10.qnt");
    assert_eq!(itf_prefix(0), "itf_0_");
    assert_eq!(itf_pattern("itf_7_"), "itf_7_{test}_{seq}.json");
    assert_eq!(typecheck_arguments("m.qnt"), vec!["typecheck", "m.qnt"]);
    assert_eq!(
        test_arguments("m.qnt", "p"),
        vec![
            "test",
            "m.qnt",
            "--main=replay_trace",
            "--match=execution_satisfies_spec",
            "--out-itf=p",
            "--verbosity=3",
            "--backend=typescript",
        ]
    );
    let names = vec!["starstream.qnt".to_string(), "itf_12_x_0.json".to_string()];
    assert!(ran_any_test(&names, "itf_12_"));
    assert!(!ran_any_test(&names, "itf_1_"));
    assert!(!ran_any_test(&vec![], "itf_1_"));
}

#[test]
fn the_pinned_version_is_the_one_that_runs() {
    let manifest =
        "{ \"devDependencies\": { \"@informalsystems/quint\": \"0.26.0\" }, \"name\": \"x\" }";
    let pinned = pinned_version(manifest).unwrap();
    assert_eq!(pinned, "0.26.0");
    for invalid in [
        "{}",
        "no json",
        "{ \"devDependencies\": { \"@informalsystems/quint\": 1 } }",
        "{ \"devDependencies\": [] }",
    ] {
        assert_eq!(pinned_version(invalid), None);
    }
    assert_eq!(installed_version(None), None);
    assert_eq!(installed_version(Some(output(false, "0.26.0", ""))), None);
    let found = installed_version(Some(output(true, "  0.26.0\n", "")));
    assert_eq!(found, Some("0.26.0".to_string()));
    assert_eq!(check_pinned_version("quint", found, &pinned), Ok(()));
    assert_eq!(
        check_pinned_version("quint", Some("0.25.1".to_string()), &pinned),
        Err(QuintError::VersionMismatch {
            command: "quint".to_string(),
            found: "0.25.1".to_string(),
            pinned: "0.26.0".to_string(),
        })
    );
    assert_eq!(
        check_pinned_version("quint", None, &pinned),
        Err(QuintError::NoQuint {
            command: "quint".to_string(),
            pinned: "0.26.0".to_string(),
        })
    );
}
