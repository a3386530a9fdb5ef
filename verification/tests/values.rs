use starstream_interleaving::commitment::kind;
use starstream_interleaving::compression::commit_block;
use starstream_interleaving::events::{encode, EventKind, Word};
use starstream_interleaving::field::FIELD_MODULUS;
use starstream_interleaving::ivc_state::CoroutineId;
use starstream_interleaving::layout::{
    bit_column, column_width, COLUMN_COUNT, COL_ARGUMENT_ROOT, COL_CALL_SP_BEFORE_INVERSE,
    COL_CALL_STACK_MUL_STRIDE_8, COL_OUT, ROW_WIDTH,
};
use starstream_interleaving::opcode::Opcode;
use starstream_interleaving::step::normalize;
use starstream_interleaving::witness::build_witness_vector;
use starstream_interleaving::{
    MethodHash, Out, ResourceHandle, StarstreamValue, Step, Trace,
};

fn first_words(chain: [u64; 4], block: [u64; 8]) -> [u64; 4] {
    [
        chain[0].wrapping_add(block[0]),
        chain[1].wrapping_add(block[1]),
        chain[2].wrapping_add(block[2]),
        chain[3].wrapping_add(block[3]),
    ]
}

fn call() -> Step {
    Step::CallMethod {
        resource: ResourceHandle(5),
        method: MethodHash([11, 12, 13, 14, 15, 16, 17, 18]),
        arguments: StarstreamValue([21, 22, 23, 24]),
        result: StarstreamValue([31, 32, 33, 34]).into(),
    }
}

#[test]
fn a_value_is_cut_into_halves() {
    let value = StarstreamValue([0x1234_5678_9abc_def0, 1, 0xffff_ffff_0000_0000, u64::MAX]);
    assert_eq!(
        value.words32(),
        [0x9abc_def0, 0x1234_5678, 1, 0, 0, 0xffff_ffff, 0xffff_ffff, 0xffff_ffff]
    );
    assert_eq!(StarstreamValue::unit_value(), StarstreamValue([0; 4]));
    assert_eq!(StarstreamValue::default(), StarstreamValue([0; 4]));
    assert_eq!(StarstreamValue::from(vec![7, u32::MAX]), StarstreamValue([7, 0xffff_ffff, 0, 0]));
    assert_eq!(StarstreamValue::from(vec![]), StarstreamValue::unit_value());
}

#[test]
fn a_method_is_written_high_half_first() {
    assert_eq!(
        MethodHash([1, 0x0a0b_0c0d, 0, 0xf, 0xabcd_ef01, 0, 0xffff_ffff, 2]).to_hex(),
        "0a0b0c0d000000010000000f0000000000000000abcdef0100000002ffffffff"
    );
}

#[test]
fn an_out_value_wraps_any_value() {
    let wrapped: Out<ResourceHandle> = ResourceHandle(4).into();
    assert_eq!(wrapped, Out(ResourceHandle(4)));
}

#[test]
fn an_event_is_encoded_in_blocks_of_eight_words() {
    assert_eq!(
        encode(&call()),
        vec![
            [6, 5, 11, 12, 13, 14, 15, 16],
            [17, 18, 21, 22, 23, 24, 0, 0],
            [31, 32, 33, 34, 0, 0, 0, 0],
        ]
    );
    assert_eq!(
        encode(&Step::NewUtxo {
            arguments: StarstreamValue([1, 2, 3, 4]),
            resource: ResourceHandle(9).into(),
        }),
        vec![[1, 1, 2, 3, 4, 9, 0, 0]]
    );
    assert_eq!(
        encode(&Step::RegisterMethod { method: MethodHash([1, 2, 3, 4, 5, 6, 7, 8]) }),
        vec![[4, 1, 2, 3, 4, 5, 6, 7], [8, 0, 0, 0, 0, 0, 0, 0]]
    );
    assert_eq!(
        encode(&Step::EnterMethod {
            method: MethodHash([1, 2, 3, 4, 5, 6, 7, 8]),
            arguments: StarstreamValue([9, 10, 11, 12]),
        }),
        vec![[7, 1, 2, 3, 4, 5, 6, 7], [8, 9, 10, 11, 12, 0, 0, 0]]
    );
    let root = StarstreamValue([4, 3, 2, 1]);
    assert_eq!(encode(&Step::YieldBegin), vec![[3, 0, 0, 0, 0, 0, 0, 0]]);
    assert_eq!(
        encode(&Step::EnterConstructor { arguments: root }),
        vec![[2, 4, 3, 2, 1, 0, 0, 0]]
    );
    assert_eq!(
        encode(&Step::Return { result: root.into() }),
        vec![[5, 4, 3, 2, 1, 0, 0, 0]]
    );
    assert_eq!(
        encode(&Step::SetStorage { storage: root, resource: ResourceHandle(1).into() }),
        vec![[8, 4, 3, 2, 1, 0, 0, 0]]
    );
    assert_eq!(
        encode(&Step::GetStorage { storage: root.into() }),
        vec![[9, 4, 3, 2, 1, 0, 0, 0]]
    );
}

#[test]
fn boundary_steps_emit_nothing() {
    let method = MethodHash([0; 8]);
    for step in [
        Step::PreloadMethod { method },
        Step::ReadAbi { method },
        Step::SkipConsumed,
        Step::FinishTransaction,
    ] {
        assert_eq!(EventKind::for_step(&step), None);
        assert!(encode(&step).is_empty());
    }
    assert_eq!(EventKind::for_step(&call()), Some(EventKind::CallMethod));
}

#[test]
fn blocks_hold_at_most_one_root_and_three_blocks_an_event() {
    for op in Opcode::all() {
        assert_eq!(kind(op).is_some(), op.has_event());
        if let Some(kind) = kind(op) {
            let blocks = kind.blocks();
            assert!((1..=3).contains(&blocks.len()));
            for block in blocks {
                let argument = block.iter().any(|word| matches!(word, Word::Argument(_)));
                let result = block.iter().any(|word| matches!(word, Word::Result(_)));
                assert!(!(argument && result));
            }
        }
    }
}

#[test]
fn a_chain_is_compressed_over_canonical_words() {
    let chain = [FIELD_MODULUS, FIELD_MODULUS + 1, 0, u64::MAX];
    let block = [1, 2, FIELD_MODULUS - 1, 0, 0, 0, 0, 0];
    assert_eq!(
        commit_block(chain, block, &first_words),
        [1, 3, FIELD_MODULUS - 1, 0xffff_fffe]
    );
}

#[test]
fn the_call_stack_pointer_wraps_in_the_field() {
    let back = Step::Return { result: StarstreamValue::unit_value().into() };
    let trace = Trace::new(vec![back.clone(), back.clone(), call(), call()]);
    let steps = normalize(&trace, &first_words).steps;
    let pointers: Vec<u64> = steps.iter().map(|w| w.call_sp_after).collect();
    assert_eq!(pointers, vec![0, FIELD_MODULUS - 1, 0, 1]);
}

#[test]
fn a_row_holds_what_is_computed_in_the_field() {
    let trace = Trace::new(vec![
        Step::NewUtxo {
            arguments: StarstreamValue([(1 << 40) + 5, 0, 0, FIELD_MODULUS - 1]),
            resource: ResourceHandle(0).into(),
        },
        Step::EnterConstructor { arguments: StarstreamValue::unit_value() },
    ]);
    let steps = normalize(&trace, &first_words).steps;
    let row = build_witness_vector(&steps[0], &first_words);
    assert_eq!(row.len(), ROW_WIDTH);
    // A root is put together from its limbs.
    assert_eq!(row[COL_ARGUMENT_ROOT], (1 << 40) + 5);
    assert_eq!(row[COL_ARGUMENT_ROOT + 3], FIELD_MODULUS - 1);
    // A push writes behind the frame of the first coordinator.
    assert_eq!(row[COL_CALL_STACK_MUL_STRIDE_8 + 3], 11);
    // The chain starts from zero: tag, then three words of the argument.
    assert_eq!(row[COL_OUT..COL_OUT + 4], [1, (1 << 40) + 5, 0, 0]);
    // The inverse of two is half of the modulus plus one.
    let entry = build_witness_vector(&steps[1], &first_words);
    assert_eq!(entry[COL_CALL_SP_BEFORE_INVERSE], 0x7fff_ffff_8000_0001);
}

#[test]
fn wide_columns_have_a_bit_for_each_place() {
    let mut next = COLUMN_COUNT;
    for column in 0..COLUMN_COUNT {
        let width = column_width(column);
        if width > 1 {
            for place in 0..width {
                assert_eq!(bit_column(column, place), next);
                next += 1;
            }
        }
    }
    assert_eq!(next, ROW_WIDTH);
}

#[test]
fn packed_identities_tell_kinds_apart() {
    assert_eq!(CoroutineId::Coord(3).encoded(), 6);
    assert_eq!(CoroutineId::Utxo(3).encoded(), 7);
}
