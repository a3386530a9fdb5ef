//! What the part of the relation on event commitments says of the row of a witness
//! record: all of it holds, but for arguments and results that are not canonical.

use vstd::prelude::*;

use crate::assignment::{lemma_inverse, lemma_row_selects};
use crate::commitment::{
    block_in_row, block_rows, canonical_rows, canonical_rows_of, chain_in_row, commitment_cell,
    commitment_rows, compression_rows, event_bus, event_word, gadget_of, high_delta, limb,
    output_columns, root_fields, root_words, selection_row, selection_rows, source_of, with_input,
    word_in_row,
};
use crate::compression::{extended, reduced4, reduced8};
use crate::event_laws::{law_events_have_at_most_three_blocks, lemma_reduced8};
use crate::events::{lemma_templates_well_indexed, well_indexed, Word};
use crate::exactness::lemma_rows4;
use crate::field::{inverse_or_zero, residue, vanishes, FIELD_MODULUS};
use crate::groups::{block_count, OpcodeGroup};
use crate::layout::{
    COLUMN_COUNT, ROW_WIDTH, COL_ARGUMENT_ROOT, COL_CALL_STACK_EXPECTED_ARG_VALUE,
    COL_CALL_STACK_EXPECTED_RESULT_VALUE, COL_CANONICAL_HIGH_INV, COL_CANONICAL_HIGH_MAX,
    COL_EVENT_BLOCKS, COL_EVENT_HASHES, COL_IN_WORDS, COL_ONE, COL_OUT, COL_OUT_WORDS,
    COL_RESULT_ROOT,
};
use crate::memory::value_of;
use crate::opcode::{opcodes, Opcode};
use crate::relation::{product, satisfied, values4, values8, Equation, Term};
use crate::selection::{
    lemma_constant_value, lemma_equal_values, lemma_group_row, lemma_opcode_row, selects_only,
};
use crate::soundness::{
    lemma_concat, lemma_concat4, lemma_linear_holds, lemma_product_holds, lemma_residue_same,
    lemma_small_zero, lemma_sum1, lemma_sum2, lemma_sum3, value_sum,
};
use crate::step::Wit;
use crate::transfer_rules::lemma_less_residue;
use crate::witness::{lane, semantic_row, with_strides, witness_row};

verus! {

/// The row of a witness record before its event is committed to.
pub open spec fn plain_row(w: Wit) -> Seq<u64> {
    with_input(with_strides(semantic_row(w)), w.commitment_before)
}

/// What the rows on a field element of a root say, where the limbs are in range and the
/// auxiliary columns are assigned: the largest high limb goes with a zero low limb.
proof fn lemma_canonical_of(
    z: Seq<u64>,
    h: spec_fn([u64; 4], [u64; 8]) -> [u64; 4],
    group: usize,
    i: int,
    lo: int,
    hi: int,
)
    requires
        group < 4,
        0 <= i < 4,
        value_of(z, COL_ONE) == 1,
        0 <= lo <= u32::MAX,
        0 <= hi <= u32::MAX,
        value_of(z, (root_words(group) + 2 * i) as usize) == lo,
        value_of(z, (root_words(group) + 2 * i + 1) as usize) == hi,
        value_of(z, (root_fields(group) + i) as usize) == residue(lo + 0x1_0000_0000 * hi),
        value_of(z, (COL_CANONICAL_HIGH_MAX + 4 * group + i) as usize) == (if hi == u32::MAX {
            1u64
        } else {
            0
        }),
        value_of(z, (COL_CANONICAL_HIGH_INV + 4 * group + i) as usize) == inverse_or_zero(
            residue(hi - 0xffff_ffff),
        ),
    ensures
        satisfied(canonical_rows_of(group, i), z, h) <==> (hi == u32::MAX ==> lo == 0),
{
    let label = "canonical event roots";
    let field = (root_fields(group) + i) as usize;
    let low = (root_words(group) + 2 * i) as usize;
    let high = (root_words(group) + 2 * i + 1) as usize;
    let flag = (COL_CANONICAL_HIGH_MAX + 4 * group + i) as usize;
    let inverse = (COL_CANONICAL_HIGH_INV + 4 * group + i) as usize;
    let delta = seq![(high, 1i64), (COL_ONE, -0xffff_ffffi64)];
    let none = Seq::<Term>::empty();
    let p = FIELD_MODULUS as int;
    let d = hi - 0xffff_ffff;
    let f = value_of(z, flag) as int;
    let v = value_of(z, inverse) as int;
    let x = lo + 0x1_0000_0000 * hi;
    lemma_small_zero(0);
    assert(value_sum(none, z, 0) == 0);
    lemma_linear_holds(
        label,
        seq![(field, 1i64), (low, -1i64), (high, -0x1_0000_0000i64)],
        z,
        h,
    );
    lemma_sum3(z, field, 1, low, -1i64, high, -0x1_0000_0000i64);
    lemma_less_residue(x);
    lemma_negated(x - residue(x));
    lemma_product_holds(
        label,
        delta,
        seq![(inverse, 1i64)],
        seq![(COL_ONE, 1i64), (flag, -1i64)],
        z,
        h,
    );
    lemma_product_holds(label, delta, seq![(flag, 1i64)], none, z, h);
    lemma_product_holds(label, seq![(low, 1i64)], seq![(flag, 1i64)], none, z, h);
    lemma_sum2(z, high, 1, COL_ONE, -0xffff_ffffi64);
    lemma_sum2(z, COL_ONE, 1, flag, -1i64);
    lemma_sum1(z, inverse, 1);
    lemma_sum1(z, flag, 1);
    lemma_sum1(z, low, 1);
    assert(value_sum(delta, z, 2) == d);
    if hi == u32::MAX {
        assert(0 * v == 0);
        assert(0 * f == 0);
        assert(lo * f == lo) by (nonlinear_arith)
            requires
                f == 1,
        ;
        if vanishes(lo) {
            lemma_small_zero(lo);
        }
    } else {
        assert(d * f == 0 && lo * f == 0) by (nonlinear_arith)
            requires
                f == 0,
        ;
        lemma_canonical_inverse(d, v);
    }
    lemma_rows4(canonical_rows_of(group, i), z, h);
}

proof fn lemma_negated(x: int)
    requires
        vanishes(x),
    ensures
        vanishes(-x),
{
    let p = FIELD_MODULUS as int;
    vstd::arithmetic::div_mod::lemma_fundamental_div_mod(x, p);
    let q = x / p;
    assert(-x == (-q) * p) by (nonlinear_arith)
        requires
            x == p * q,
    ;
    vstd::arithmetic::div_mod::lemma_mod_multiples_basic(-q, p);
}

/// The product of a distance and the inverse of its residue is one.
proof fn lemma_canonical_inverse(d: int, v: int)
    requires
        -0xffff_ffff <= d < 0,
        v == inverse_or_zero(residue(d)),
    ensures
        vanishes(d * v - 1),
{
    let p = FIELD_MODULUS as int;
    vstd::arithmetic::div_mod::lemma_fundamental_div_mod_converse(d, p, -1, d + p);
    let r = residue(d);
    assert(r == d + p);
    vstd::arithmetic::div_mod::lemma_small_mod(r as nat, p as nat);
    lemma_inverse(r);
    assert(r * v == d * v + p * v) by (nonlinear_arith)
        requires
            r == d + p,
    ;
    vstd::arithmetic::div_mod::lemma_mod_multiples_vanish(v, d * v, p);
    vstd::arithmetic::div_mod::lemma_sub_mod_noop(d * v, 1, p);
    vstd::arithmetic::div_mod::lemma_small_mod(1, p as nat);
    lemma_small_zero(0);
}

/// Whether two limbs are the halves of a field element.
pub open spec fn canonical_pair(low: u64, high: u64) -> bool {
    low + 0x1_0000_0000 * high < FIELD_MODULUS
}

/// Whether the limbs of a value are those of four field elements.
pub open spec fn canonical_lanes(bus: Option<[u64; 8]>) -> bool {
    forall|i: int| 0 <= i < 4 ==> canonical_pair(#[trigger] lane(bus, 2 * i), lane(bus, 2 * i + 1))
}

/// A column of the event commitment of the row of a witness record.
pub(crate) proof fn lemma_commitment_cell(
    w: Wit,
    h: spec_fn([u64; 4], [u64; 8]) -> [u64; 4],
    column: int,
)
    requires
        COL_OUT <= column < COLUMN_COUNT,
    ensures
        witness_row(w, h)[column] == commitment_cell(
            event_bus(plain_row(w), w.opcode, h),
            plain_row(w),
            column,
        ),
{
}

/// The limbs of a field element are its halves, and canonical.
proof fn lemma_halves(value: u64)
    ensures
        limb(value, 0) <= u32::MAX,
        limb(value, 1) <= u32::MAX,
        limb(value, 0) + 0x1_0000_0000 * limb(value, 1) == residue(value as int),
        limb(value, 1) == u32::MAX ==> limb(value, 0) == 0,
{
    let r = residue(value as int);
    vstd::arithmetic::div_mod::lemma_mod_bound(value as int, FIELD_MODULUS as int);
    assert(r < FIELD_MODULUS);
}

/// Limbs of the chain before a row and after it, and of argument and result.
pub open spec fn root_value(w: Wit, h: spec_fn([u64; 4], [u64; 8]) -> [u64; 4], group: usize, i: int) -> (
    u64,
    u64,
) {
    let bus = event_bus(plain_row(w), w.opcode, h);
    if group == 0 {
        (limb(bus.input[i], 0), limb(bus.input[i], 1))
    } else if group == 1 {
        (limb(bus.output[i], 0), limb(bus.output[i], 1))
    } else if group == 2 {
        (lane(w.expected_arguments, 2 * i), lane(w.expected_arguments, 2 * i + 1))
    } else {
        (lane(w.expected_result, 2 * i), lane(w.expected_result, 2 * i + 1))
    }
}

proof fn lemma_root_limbs(w: Wit, h: spec_fn([u64; 4], [u64; 8]) -> [u64; 4], group: usize, i: int)
    requires
        group < 4,
        0 <= i < 4,
    ensures
        witness_row(w, h)[root_words(group) + 2 * i] == root_value(w, h, group, i).0,
        witness_row(w, h)[root_words(group) + 2 * i + 1] == root_value(w, h, group, i).1,
{
    let low = root_words(group) + 2 * i;
    if group == 0 {
        lemma_commitment_cell(w, h, low);
        lemma_commitment_cell(w, h, low + 1);
        assert((low - COL_IN_WORDS) / 2 == i);
        assert((low + 1 - COL_IN_WORDS) / 2 == i);
    } else if group == 1 {
        lemma_commitment_cell(w, h, low);
        lemma_commitment_cell(w, h, low + 1);
        assert((low - COL_OUT_WORDS) / 2 == i);
        assert((low + 1 - COL_OUT_WORDS) / 2 == i);
    }
}

pub(crate) proof fn lemma_root_field(w: Wit, h: spec_fn([u64; 4], [u64; 8]) -> [u64; 4], group: usize, i: int)
    requires
        group < 4,
        0 <= i < 4,
    ensures
        value_of(witness_row(w, h), (root_fields(group) + i) as usize) == residue(
            root_value(w, h, group, i).0 + 0x1_0000_0000 * root_value(w, h, group, i).1,
        ),
{
    let p = FIELD_MODULUS as int;
    let row = plain_row(w);
    let bus = event_bus(row, w.opcode, h);
    let (lo, hi) = root_value(w, h, group, i);
    vstd::arithmetic::div_mod::lemma_mod_twice(lo + 0x1_0000_0000 * hi, p);
    if group == 0 {
        lemma_halves(bus.input[i]);
        lemma_residue_same(bus.input[i]);
    } else if group == 1 {
        lemma_commitment_cell(w, h, COL_OUT + i);
        lemma_halves(bus.output[i]);
        lemma_residue_same(bus.output[i]);
    } else if group == 2 {
        lemma_commitment_cell(w, h, COL_ARGUMENT_ROOT + i);
    } else {
        lemma_commitment_cell(w, h, COL_RESULT_ROOT + i);
    }
}

proof fn lemma_root_delta(w: Wit, h: spec_fn([u64; 4], [u64; 8]) -> [u64; 4], group: usize, i: int)
    requires
        group < 4,
        0 <= i < 4,
    ensures
        high_delta(event_bus(plain_row(w), w.opcode, h), plain_row(w), 4 * group + i) == residue(
            root_value(w, h, group, i).1 - 0xffff_ffff,
        ),
{
    let k = 4 * group + i;
    assert(k / 4 == group && k % 4 == i);
}

/// The auxiliary columns of a root of a witness record.
proof fn lemma_root_marks(w: Wit, h: spec_fn([u64; 4], [u64; 8]) -> [u64; 4], group: usize, i: int)
    requires
        group < 4,
        0 <= i < 4,
        root_value(w, h, group, i).1 <= u32::MAX,
    ensures
        value_of(witness_row(w, h), (COL_CANONICAL_HIGH_MAX + 4 * group + i) as usize) == (
        if root_value(w, h, group, i).1 == u32::MAX {
            1u64
        } else {
            0
        }),
        value_of(witness_row(w, h), (COL_CANONICAL_HIGH_INV + 4 * group + i) as usize)
            == inverse_or_zero(residue(root_value(w, h, group, i).1 - 0xffff_ffff)),
{
    let p = FIELD_MODULUS as int;
    let k = 4 * group + i;
    let d = root_value(w, h, group, i).1 - 0xffff_ffff;
    lemma_root_delta(w, h, group, i);
    lemma_commitment_cell(w, h, COL_CANONICAL_HIGH_MAX + k);
    lemma_commitment_cell(w, h, COL_CANONICAL_HIGH_INV + k);
    lemma_inverse(residue(d));
    vstd::arithmetic::div_mod::lemma_small_mod(inverse_or_zero(residue(d)) as nat, p as nat);
    vstd::arithmetic::div_mod::lemma_small_mod(0, p as nat);
    vstd::arithmetic::div_mod::lemma_small_mod(1, p as nat);
    if d < 0 {
        vstd::arithmetic::div_mod::lemma_fundamental_div_mod_converse(d, p, -1, d + p);
    }
}

/// The canonical rows of a root of a witness record.
proof fn lemma_root(w: Wit, h: spec_fn([u64; 4], [u64; 8]) -> [u64; 4], group: usize, i: int)
    requires
        group < 4,
        0 <= i < 4,
        value_of(witness_row(w, h), COL_ONE) == 1,
        root_value(w, h, group, i).0 <= u32::MAX,
        root_value(w, h, group, i).1 <= u32::MAX,
    ensures
        satisfied(canonical_rows_of(group, i), witness_row(w, h), h) <==> (root_value(
            w,
            h,
            group,
            i,
        ).1 == u32::MAX ==> root_value(w, h, group, i).0 == 0),
{
    let p = FIELD_MODULUS as int;
    let (lo, hi) = root_value(w, h, group, i);
    vstd::arithmetic::div_mod::lemma_small_mod(lo as nat, p as nat);
    vstd::arithmetic::div_mod::lemma_small_mod(hi as nat, p as nat);
    lemma_root_limbs(w, h, group, i);
    lemma_root_field(w, h, group, i);
    lemma_root_marks(w, h, group, i);
    lemma_canonical_of(witness_row(w, h), h, group, i, lo as int, hi as int);
}

/// The canonical rows of the first `n` field elements of the roots hold exactly where the
/// rows of each of them do.
proof fn lemma_canonical_parts(
    z: Seq<u64>,
    h: spec_fn([u64; 4], [u64; 8]) -> [u64; 4],
    n: int,
)
    requires
        0 <= n,
    ensures
        satisfied(canonical_rows(n), z, h) <==> (forall|k: int|
            0 <= k < n ==> satisfied(#[trigger] canonical_rows_of((k / 4) as usize, k % 4), z, h)),
    decreases n,
{
    if n > 0 {
        let last = canonical_rows_of(((n - 1) / 4) as usize, (n - 1) % 4);
        lemma_canonical_parts(z, h, n - 1);
        lemma_concat(canonical_rows(n - 1), last, z, h);
    }
}

/// The canonical rows hold exactly where the limbs of argument and result are canonical.
proof fn lemma_canonical(w: Wit, h: spec_fn([u64; 4], [u64; 8]) -> [u64; 4])
    requires
        value_of(witness_row(w, h), COL_ONE) == 1,
        forall|i: int| 0 <= i < 8 ==> #[trigger] lane(w.expected_arguments, i) <= u32::MAX,
        forall|i: int| 0 <= i < 8 ==> #[trigger] lane(w.expected_result, i) <= u32::MAX,
    ensures
        satisfied(canonical_rows(16), witness_row(w, h), h) <==> canonical_lanes(
            w.expected_arguments,
        ) && canonical_lanes(w.expected_result),
{
    let z = witness_row(w, h);
    lemma_canonical_parts(z, h, 16);
    assert forall|k: int| 0 <= k < 16 implies (satisfied(
        #[trigger] canonical_rows_of((k / 4) as usize, k % 4),
        z,
        h,
    ) <==> (k < 8 || canonical_pair(
        root_value(w, h, (k / 4) as usize, k % 4).0,
        root_value(w, h, (k / 4) as usize, k % 4).1,
    ))) by {
        let group = (k / 4) as usize;
        let i = k % 4;
        let bus = event_bus(plain_row(w), w.opcode, h);
        lemma_halves(bus.input[i]);
        lemma_halves(bus.output[i]);
        assert(lane(w.expected_arguments, 2 * i) <= u32::MAX);
        assert(lane(w.expected_arguments, 2 * i + 1) <= u32::MAX);
        assert(lane(w.expected_result, 2 * i) <= u32::MAX);
        assert(lane(w.expected_result, 2 * i + 1) <= u32::MAX);
        lemma_root(w, h, group, i);
    }
    if satisfied(canonical_rows(16), z, h) {
        assert forall|i: int| 0 <= i < 4 implies canonical_pair(
            #[trigger] lane(w.expected_arguments, 2 * i),
            lane(w.expected_arguments, 2 * i + 1),
        ) by {
            assert(satisfied(canonical_rows_of(((8 + i) / 4) as usize, (8 + i) % 4), z, h));
            assert((8 + i) / 4 == 2 && (8 + i) % 4 == i);
        }
        assert forall|i: int| 0 <= i < 4 implies canonical_pair(
            #[trigger] lane(w.expected_result, 2 * i),
            lane(w.expected_result, 2 * i + 1),
        ) by {
            assert(satisfied(canonical_rows_of(((12 + i) / 4) as usize, (12 + i) % 4), z, h));
            assert((12 + i) / 4 == 3 && (12 + i) % 4 == i);
        }
    }
    if canonical_lanes(w.expected_arguments) && canonical_lanes(w.expected_result) {
        assert forall|k: int| 0 <= k < 16 implies satisfied(
            #[trigger] canonical_rows_of((k / 4) as usize, k % 4),
            z,
            h,
        ) by {
            let i = k % 4;
            assert(canonical_pair(
                lane(w.expected_arguments, 2 * i),
                lane(w.expected_arguments, 2 * i + 1),
            ));
            assert(canonical_pair(
                lane(w.expected_result, 2 * i),
                lane(w.expected_result, 2 * i + 1),
            ));
        }
    }
}

/// A word has its value in the column that it comes from.
proof fn lemma_source(w: Wit, h: spec_fn([u64; 4], [u64; 8]) -> [u64; 4], word: Word)
    requires
        well_indexed(word),
    ensures
        word matches Word::Constant(x) ==> word_in_row(plain_row(w), word) == x,
        !(word is Constant) ==> word_in_row(plain_row(w), word) == value_of(
            witness_row(w, h),
            source_of(word).0,
        ),
{
    let row = plain_row(w);
    let bus = event_bus(row, w.opcode, h);
    let p = FIELD_MODULUS as int;
    match word {
        Word::Constant(x) => {
            assert(row[COL_ONE as int] == 1);
            vstd::arithmetic::div_mod::lemma_small_mod(x as nat, p as nat);
            assert(1 * x == x);
        },
        Word::Resource => {},
        Word::Method(i) => {},
        Word::Argument(i) => {
            lemma_commitment_cell(w, h, COL_ARGUMENT_ROOT + i);
            let first = COL_CALL_STACK_EXPECTED_ARG_VALUE + 2 * i;
            vstd::arithmetic::div_mod::lemma_mod_twice(row[first] + 0x1_0000_0000 * row[first + 1], p);
        },
        Word::Result(i) => {
            lemma_commitment_cell(w, h, COL_RESULT_ROOT + i);
            let first = COL_CALL_STACK_EXPECTED_RESULT_VALUE + 2 * i;
            vstd::arithmetic::div_mod::lemma_mod_twice(row[first] + 0x1_0000_0000 * row[first + 1], p);
        },
    }
}

/// A lane of a block of the row of a witness record.
proof fn lemma_block_cell(
    w: Wit,
    h: spec_fn([u64; 4], [u64; 8]) -> [u64; 4],
    block: int,
    place: int,
)
    requires
        0 <= block < 3,
        0 <= place < 8,
    ensures
        value_of(witness_row(w, h), (COL_EVENT_BLOCKS + 8 * block + place) as usize)
            == word_in_row(plain_row(w), event_word(w.opcode, block, place)),
        word_in_row(plain_row(w), event_word(w.opcode, block, place)) < FIELD_MODULUS,
{
    let row = plain_row(w);
    let bus = event_bus(row, w.opcode, h);
    let column = COL_EVENT_BLOCKS + 8 * block + place;
    assert((column - COL_EVENT_BLOCKS) / 8 == block && (column - COL_EVENT_BLOCKS) % 8 == place);
    lemma_commitment_cell(w, h, column);
    assert(bus.blocks[block] == block_in_row(row, w.opcode, block));
    let word = event_word(w.opcode, block, place);
    lemma_event_words_well_indexed(w.opcode, block, place);
    assert(block_in_row(row, w.opcode, block)[place] == word_in_row(row, word));
    lemma_words_are_canonical(row, word);
    vstd::arithmetic::div_mod::lemma_small_mod(
        word_in_row(row, word) as nat,
        FIELD_MODULUS as nat,
    );
}

proof fn lemma_words_are_canonical(row: Seq<u64>, word: Word)
    requires
        well_indexed(word),
    ensures
        word_in_row(row, word) < FIELD_MODULUS,
{
}

/// The blocks of the row of a witness record are those of its event.
proof fn lemma_blocks(w: Wit, h: spec_fn([u64; 4], [u64; 8]) -> [u64; 4])
    requires
        value_of(witness_row(w, h), COL_ONE) == 1,
    ensures
        satisfied(block_rows(336), witness_row(w, h), h),
{
    let z = witness_row(w, h);
    lemma_row_selects(w, h);
    assert forall|k: int| 0 <= k < 336 implies (#[trigger] block_rows(336)[k]).holds(z, h) by {
        let op = opcodes()[k / 24];
        let block = (k % 24) / 8;
        let place = k % 8;
        let word = event_word(op, block, place);
        let (column, coefficient) = source_of(word);
        let target = (COL_EVENT_BLOCKS + 8 * block + place) as usize;
        let terms = seq![(target, 1i64), (column, (-coefficient) as i64)];
        lemma_opcode_row("event block encoding", terms, z, h, op, w.opcode);
        if op == w.opcode {
            lemma_event_words_well_indexed(op, block, place);
            lemma_block_cell(w, h, block, place);
            lemma_source(w, h, word);
            match word {
                Word::Constant(x) => {
                    lemma_constant_value(z, target, x as i64);
                },
                _ => {
                    lemma_equal_values(z, target, column);
                },
            }
        }
    }
}

proof fn lemma_event_words_well_indexed(op: Opcode, block: int, place: int)
    requires
        0 <= block < 3,
        0 <= place < 8,
    ensures
        well_indexed(event_word(op, block, place)),
{
    match crate::commitment::kind(op) {
        Some(kind) => {
            if block < kind.template().len() {
                lemma_templates_well_indexed(kind, block, place);
            }
        },
        None => {},
    }
}

/// A chain of the row of a witness record.
proof fn lemma_chain_cell(w: Wit, h: spec_fn([u64; 4], [u64; 8]) -> [u64; 4], n: int, i: int)
    requires
        0 <= n <= 3,
        0 <= i < 4,
    ensures
        witness_row(w, h)[output_columns(n as usize) + i] == chain_in_row(
            plain_row(w),
            w.opcode,
            h,
            n,
        )[i],
{
    let row = plain_row(w);
    if n > 0 {
        let column = COL_EVENT_HASHES + 4 * (n - 1) + i;
        assert((column - COL_EVENT_HASHES) / 4 == n - 1 && (column - COL_EVENT_HASHES) % 4 == i);
        lemma_commitment_cell(w, h, column);
    }
}

/// The equation of a block holds where its columns are assigned.
proof fn lemma_compression_of(
    z: Seq<u64>,
    h: spec_fn([u64; 4], [u64; 8]) -> [u64; 4],
    block: int,
    chain: [u64; 4],
    words: [u64; 8],
)
    requires
        0 <= block < 3,
        z.len() == ROW_WIDTH,
        forall|i: int| 0 <= i < 4 ==> #[trigger] z[output_columns(block as usize) + i] == chain[i],
        forall|i: int|
            0 <= i < 8 ==> #[trigger] value_of(z, (COL_EVENT_BLOCKS + 8 * block + i) as usize)
                == words[i],
        forall|i: int|
            0 <= i < 4 ==> #[trigger] z[COL_EVENT_HASHES + 4 * block + i] == extended(
                h,
                chain,
                words,
            )[i],
    ensures
        compression_rows()[block].holds(z, h),
{
    reveal(Equation::holds);
    let gadget = gadget_of(block as usize);
    let first = output_columns(block as usize) as int;
    assert(z[first + 0] == chain[0] && z[first + 1] == chain[1] && z[first + 2] == chain[2]
        && z[first + 3] == chain[3]);
    assert(values4(gadget.previous, z)@ =~= chain@);
    let lanes = values8(gadget.block, z);
    assert forall|i: int| 0 <= i < 8 implies #[trigger] words[i] == residue(lanes[i] as int) by {
        assert(value_of(z, (COL_EVENT_BLOCKS + 8 * block + i) as usize) == words[i]);
    }
    lemma_reduced8(words, lanes);
    let out = COL_EVENT_HASHES + 4 * block;
    let image = extended(h, chain, words);
    assert(z[out + 0] == image[0] && z[out + 1] == image[1] && z[out + 2] == image[2] && z[out + 3]
        == image[3]);
    let raw = h(reduced4(chain), reduced8(words));
    lemma_residue_same(raw[0]);
    lemma_residue_same(raw[1]);
    lemma_residue_same(raw[2]);
    lemma_residue_same(raw[3]);
}

/// The chains of the row of a witness record extend one another.
proof fn lemma_compression(w: Wit, h: spec_fn([u64; 4], [u64; 8]) -> [u64; 4], block: int)
    requires
        0 <= block < 3,
    ensures
        compression_rows()[block].holds(witness_row(w, h), h),
{
    let z = witness_row(w, h);
    let row = plain_row(w);
    let chain = chain_in_row(row, w.opcode, h, block);
    let words = block_in_row(row, w.opcode, block);
    assert forall|i: int| 0 <= i < 4 implies #[trigger] z[output_columns(block as usize) + i]
        == chain[i] by {
        lemma_chain_cell(w, h, block, i);
    }
    assert forall|i: int| 0 <= i < 8 implies #[trigger] value_of(
        z,
        (COL_EVENT_BLOCKS + 8 * block + i) as usize,
    ) == words[i] by {
        lemma_block_cell(w, h, block, i);
    }
    assert forall|i: int| 0 <= i < 4 implies #[trigger] z[COL_EVENT_HASHES + 4 * block + i]
        == extended(h, chain, words)[i] by {
        lemma_chain_cell(w, h, block + 1, i);
    }
    lemma_compression_of(z, h, block, chain, words);
}

/// The chain after the row of a witness record is the one after its event.
proof fn lemma_output_cell(w: Wit, h: spec_fn([u64; 4], [u64; 8]) -> [u64; 4], i: int)
    requires
        0 <= i < 4,
    ensures
        block_count(w.opcode) <= 3,
        witness_row(w, h)[COL_OUT + i] == witness_row(w, h)[output_columns(block_count(w.opcode))
            + i],
{
    law_events_have_at_most_three_blocks(w.opcode);
    lemma_chain_cell(w, h, block_count(w.opcode) as int, i);
    lemma_commitment_cell(w, h, COL_OUT + i);
}

/// The equation that selects a chain holds where the chain after the row is the selected
/// one.
proof fn lemma_selection_of(
    z: Seq<u64>,
    h: spec_fn([u64; 4], [u64; 8]) -> [u64; 4],
    op: Opcode,
    count: usize,
    out: usize,
    chain: usize,
)
    requires
        selects_only(z, op),
        OpcodeGroup::EventBlocks(count).has(op) ==> value_of(z, out) == value_of(z, chain),
    ensures
        product(
            "event commitment",
            OpcodeGroup::EventBlocks(count).selectors(),
            seq![(out, 1i64), (chain, -1i64)],
            seq![],
        ).holds(z, h),
{
    let terms = seq![(out, 1i64), (chain, -1i64)];
    lemma_group_row(OpcodeGroup::EventBlocks(count), "event commitment", terms, z, h, op);
    lemma_equal_values(z, out, chain);
}

proof fn lemma_selection(w: Wit, h: spec_fn([u64; 4], [u64; 8]) -> [u64; 4], count: int, i: int)
    requires
        0 <= count < 4,
        0 <= i < 4,
        selects_only(witness_row(w, h), w.opcode),
    ensures
        selection_row(count, i).holds(witness_row(w, h), h),
{
    let z = witness_row(w, h);
    let out = (COL_OUT + i) as usize;
    let chain = (output_columns(count as usize) + i) as usize;
    lemma_output_cell(w, h, i);
    assert(OpcodeGroup::EventBlocks(count as usize).has(w.opcode) ==> value_of(z, out) == value_of(
        z,
        chain,
    ));
    lemma_selection_of(z, h, w.opcode, count as usize, out, chain);
}

proof fn lemma_selections(w: Wit, h: spec_fn([u64; 4], [u64; 8]) -> [u64; 4])
    ensures
        satisfied(selection_rows(16), witness_row(w, h), h),
{
    lemma_row_selects(w, h);
    assert forall|k: int| 0 <= k < 16 implies (#[trigger] selection_rows(16)[k]).holds(
        witness_row(w, h),
        h,
    ) by {
        lemma_selection(w, h, k / 4, k % 4);
    }
}

/// The rows of the event commitment hold exactly where the limbs of argument and result
/// are canonical.
pub(crate) proof fn lemma_commitment(w: Wit, h: spec_fn([u64; 4], [u64; 8]) -> [u64; 4])
    requires
        value_of(witness_row(w, h), COL_ONE) == 1,
        forall|i: int| 0 <= i < 8 ==> #[trigger] lane(w.expected_arguments, i) <= u32::MAX,
        forall|i: int| 0 <= i < 8 ==> #[trigger] lane(w.expected_result, i) <= u32::MAX,
    ensures
        satisfied(commitment_rows(), witness_row(w, h), h) <==> canonical_lanes(
            w.expected_arguments,
        ) && canonical_lanes(w.expected_result),
{
    let z = witness_row(w, h);
    lemma_canonical(w, h);
    lemma_blocks(w, h);
    lemma_selections(w, h);
    assert forall|b: int| 0 <= b < 3 implies (#[trigger] compression_rows()[b]).holds(z, h) by {
        lemma_compression(w, h, b);
    }
    lemma_concat4(
        canonical_rows(16),
        block_rows(336),
        compression_rows(),
        selection_rows(16),
        z,
        h,
    );
}

} // verus!
