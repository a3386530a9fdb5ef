//! What a row that meets the relation says of the event that it commits to.

use vstd::prelude::*;

use crate::commitment::{
    block_rows, canonical_rows, canonical_rows_of, compression_rows, event_word, gadget_of, kind,
    output_columns, root_fields, root_words, selection_rows, source_of,
};
use crate::compression::{extended, extended_by, reduced4, reduced8};
use crate::events::Word;
use crate::field::{residue, vanishes};
use crate::groups::{block_count, OpcodeGroup};
use crate::layout::{
    COL_ARGUMENT_ROOT, COL_CANONICAL_HIGH_INV, COL_CANONICAL_HIGH_MAX, COL_EVENT_BLOCKS, COL_IN,
    COL_METHOD_HASH_VALUE, COL_ONE, COL_OUT, COL_RESOURCE_RESOLVER_ADDR_HANDLE, COL_RESULT_ROOT,
};
use crate::memory::value_of;
use crate::opcode::{opcodes, Opcode};
use crate::relation::{at, satisfied, values4, values8, Equation, Term};
use crate::selection::{lemma_equal_values, lemma_group_row, lemma_opcode_row, selects_only};
use crate::soundness::{
    lemma_concat4, lemma_linear_holds, lemma_product_holds, lemma_residue_same, lemma_sections,
    lemma_small_zero, lemma_sum1, lemma_sum2, lemma_sum3, valid_row, value_sum,
};
use crate::statement::root;
use crate::step_laws::lemma_word;

verus! {

/// The rows of column `k` are among the first `n`.
proof fn lemma_canonical_part(
    z: Seq<u64>,
    h: spec_fn([u64; 4], [u64; 8]) -> [u64; 4],
    n: int,
    k: int,
)
    requires
        satisfied(canonical_rows(n), z, h),
        0 <= k < n,
    ensures
        satisfied(canonical_rows_of((k / 4) as usize, k % 4), z, h),
    decreases n,
{
    let last = canonical_rows_of(((n - 1) / 4) as usize, (n - 1) % 4);
    crate::soundness::lemma_concat(canonical_rows(n - 1), last, z, h);
    if k < n - 1 {
        lemma_canonical_part(z, h, n - 1, k);
    }
}

/// The limbs of a root are the halves of its field elements: the field element is the
/// low limb plus `2^32` times the high one, without wrapping around the modulus.
pub proof fn law_roots_are_canonical(
    z: Seq<u64>,
    h: spec_fn([u64; 4], [u64; 8]) -> [u64; 4],
    group: usize,
    i: int,
)
    requires
        valid_row(z, h),
        group < 4,
        0 <= i < 4,
    ensures
        value_of(z, (root_fields(group) + i) as usize) == value_of(
            z,
            (root_words(group) + 2 * i) as usize,
        ) + 0x1_0000_0000 * value_of(z, (root_words(group) + 2 * i + 1) as usize),
        value_of(z, (root_words(group) + 2 * i) as usize) <= u32::MAX,
        value_of(z, (root_words(group) + 2 * i + 1) as usize) <= u32::MAX,
{
    lemma_sections(z, h);
    lemma_concat4(
        canonical_rows(16),
        block_rows(336),
        compression_rows(),
        selection_rows(16),
        z,
        h,
    );
    let k = 4 * group + i;
    assert(k / 4 == group && k % 4 == i);
    lemma_canonical_part(z, h, 16, k);
    let rows = canonical_rows_of(group, i);
    assert(rows[0].holds(z, h));
    assert(rows[1].holds(z, h));
    assert(rows[2].holds(z, h));
    assert(rows[3].holds(z, h));
    let label = "canonical event roots";
    let field = (root_fields(group) + i) as usize;
    let low = (root_words(group) + 2 * i) as usize;
    let high = (root_words(group) + 2 * i + 1) as usize;
    let flag = (COL_CANONICAL_HIGH_MAX + 4 * group + i) as usize;
    let inverse = (COL_CANONICAL_HIGH_INV + 4 * group + i) as usize;
    let delta = seq![(high, 1i64), (COL_ONE, -0xffff_ffffi64)];
    let none = Seq::<Term>::empty();
    lemma_word(z, h, low);
    lemma_word(z, h, high);
    let x = value_of(z, field) as int;
    let lo = value_of(z, low) as int;
    let hi = value_of(z, high) as int;
    let f = value_of(z, flag) as int;
    lemma_linear_holds(
        label,
        seq![(field, 1i64), (low, -1i64), (high, -0x1_0000_0000i64)],
        z,
        h,
    );
    lemma_sum3(z, field, 1, low, -1i64, high, -0x1_0000_0000i64);
    assert(vanishes(x - lo - 0x1_0000_0000 * hi));
    lemma_sum2(z, high, 1, COL_ONE, -0xffff_ffffi64);
    lemma_sum1(z, inverse, 1);
    lemma_sum1(z, flag, 1);
    lemma_sum1(z, low, 1);
    lemma_sum2(z, COL_ONE, 1, flag, -1i64);
    assert(value_sum(none, z, 0) == 0);
    lemma_residue_same(at(z, field));
    lemma_residue_same(at(z, flag));
    if hi == 0xffff_ffff {
        lemma_product_holds(
            label,
            delta,
            seq![(inverse, 1i64)],
            seq![(COL_ONE, 1i64), (flag, -1i64)],
            z,
            h,
        );
        let v = value_of(z, inverse) as int;
        assert(0 * v == 0);
        assert(vanishes(f - 1));
        lemma_small_zero(f - 1);
        lemma_product_holds(label, seq![(low, 1i64)], seq![(flag, 1i64)], none, z, h);
        assert(lo * 1 == lo);
        lemma_small_zero(lo);
    }
    lemma_small_zero(x - lo - 0x1_0000_0000 * hi);
}

/// Value that a word of an event has in a row.
pub open spec fn word_at(z: Seq<u64>, word: Word) -> u64 {
    match word {
        Word::Constant(x) => x as u64,
        Word::Resource => value_of(z, COL_RESOURCE_RESOLVER_ADDR_HANDLE),
        Word::Method(i) => value_of(z, (COL_METHOD_HASH_VALUE + i) as usize),
        Word::Argument(i) => value_of(z, (COL_ARGUMENT_ROOT + i) as usize),
        Word::Result(i) => value_of(z, (COL_RESULT_ROOT + i) as usize),
    }
}

/// A block of the event of an opcode, as a row gives it.
pub open spec fn block_at(z: Seq<u64>, op: Opcode, block: int) -> [u64; 8] {
    [
        word_at(z, event_word(op, block, 0)),
        word_at(z, event_word(op, block, 1)),
        word_at(z, event_word(op, block, 2)),
        word_at(z, event_word(op, block, 3)),
        word_at(z, event_word(op, block, 4)),
        word_at(z, event_word(op, block, 5)),
        word_at(z, event_word(op, block, 6)),
        word_at(z, event_word(op, block, 7)),
    ]
}

/// The blocks of the event of an opcode, as a row gives them; none without an event.
pub open spec fn blocks_at(z: Seq<u64>, op: Opcode) -> Seq<[u64; 8]> {
    Seq::new(block_count(op) as nat, |b: int| block_at(z, op, b))
}

/// A lane of a block of a row holds its word.
proof fn lemma_lane(
    z: Seq<u64>,
    h: spec_fn([u64; 4], [u64; 8]) -> [u64; 4],
    op: Opcode,
    block: int,
    lane: int,
)
    requires
        valid_row(z, h),
        selects_only(z, op),
        satisfied(block_rows(336), z, h),
        0 <= block < 3,
        0 <= lane < 8,
    ensures
        value_of(z, (COL_EVENT_BLOCKS + 8 * block + lane) as usize) == word_at(
            z,
            event_word(op, block, lane),
        ),
{
    let k = 24 * op.position() + 8 * block + lane;
    assert(k / 24 == op.position() && (k % 24) / 8 == block && k % 8 == lane);
    assert(opcodes()[op.position()] == op);
    assert(block_rows(336)[k].holds(z, h));
    let word = event_word(op, block, lane);
    let (column, coefficient) = source_of(word);
    let target = (COL_EVENT_BLOCKS + 8 * block + lane) as usize;
    lemma_opcode_row(
        "event block encoding",
        seq![(target, 1i64), (column, (-coefficient) as i64)],
        z,
        h,
        op,
        op,
    );
    match word {
        Word::Constant(x) => {
            crate::selection::lemma_constant_value(z, target, x as i64);
        },
        _ => {
            lemma_equal_values(z, target, column);
        },
    }
}

/// The chain after a block of a row.
proof fn lemma_link(
    z: Seq<u64>,
    h: spec_fn([u64; 4], [u64; 8]) -> [u64; 4],
    op: Opcode,
    block: int,
)
    requires
        valid_row(z, h),
        selects_only(z, op),
        satisfied(block_rows(336), z, h),
        satisfied(compression_rows(), z, h),
        0 <= block < 3,
    ensures
        root(z, output_columns((block + 1) as usize)) == extended(
            h,
            root(z, output_columns(block as usize)),
            block_at(z, op, block),
        ),
{
    assert(compression_rows()[block].holds(z, h));
    reveal(Equation::holds);
    let gadget = gadget_of(block as usize);
    let first = output_columns(block as usize);
    lemma_lane(z, h, op, block, 0);
    lemma_lane(z, h, op, block, 1);
    lemma_lane(z, h, op, block, 2);
    lemma_lane(z, h, op, block, 3);
    lemma_lane(z, h, op, block, 4);
    lemma_lane(z, h, op, block, 5);
    lemma_lane(z, h, op, block, 6);
    lemma_lane(z, h, op, block, 7);
    let before = root(z, first);
    let words = block_at(z, op, block);
    lemma_reduced4(before, values4(gadget.previous, z));
    lemma_reduced8(words, values8(gadget.block, z));
    let image = extended(h, before, words);
    assert(image == extended(h, values4(gadget.previous, z), values8(gadget.block, z)));
    assert(root(z, output_columns((block + 1) as usize))@ =~= image@);
}

pub(crate) proof fn lemma_reduced4(x: [u64; 4], y: [u64; 4])
    requires
        forall|i: int| 0 <= i < 4 ==> #[trigger] x[i] == residue(y[i] as int),
    ensures
        reduced4(x) == reduced4(y),
{
    assert forall|i: int| 0 <= i < 4 implies residue(#[trigger] x[i] as int) == x[i] by {
        lemma_residue_same(y[i]);
    }
    assert(reduced4(x)@ =~= reduced4(y)@);
}

pub(crate) proof fn lemma_reduced8(x: [u64; 8], y: [u64; 8])
    requires
        forall|i: int| 0 <= i < 8 ==> #[trigger] x[i] == residue(y[i] as int),
    ensures
        reduced8(x) == reduced8(y),
{
    assert forall|i: int| 0 <= i < 8 implies residue(#[trigger] x[i] as int) == x[i] by {
        lemma_residue_same(y[i]);
    }
    assert(reduced8(x)@ =~= reduced8(y)@);
}

/// The chain after a row is the chain before it, extended by the blocks of the event of
/// its opcode; without an event it stays as it is.
pub proof fn law_chain_is_extended_by_the_event(
    z: Seq<u64>,
    h: spec_fn([u64; 4], [u64; 8]) -> [u64; 4],
    op: Opcode,
)
    requires
        valid_row(z, h),
        selects_only(z, op),
    ensures
        root(z, COL_OUT) == extended_by(
            h,
            root(z, COL_IN),
            blocks_at(z, op),
            block_count(op) as int,
        ),
{
    lemma_sections(z, h);
    lemma_concat4(
        canonical_rows(16),
        block_rows(336),
        compression_rows(),
        selection_rows(16),
        z,
        h,
    );
    let count = block_count(op);
    law_events_have_at_most_three_blocks(op);
    lemma_chain(z, h, op, count as int);
    lemma_selected(z, h, op, 0);
    lemma_selected(z, h, op, 1);
    lemma_selected(z, h, op, 2);
    lemma_selected(z, h, op, 3);
    assert(root(z, COL_OUT)@ =~= root(z, output_columns(count))@);
}

/// The chain after a row is the one after the blocks of its opcode.
proof fn lemma_selected(
    z: Seq<u64>,
    h: spec_fn([u64; 4], [u64; 8]) -> [u64; 4],
    op: Opcode,
    lane: int,
)
    requires
        selects_only(z, op),
        satisfied(selection_rows(16), z, h),
        block_count(op) <= 3,
        0 <= lane < 4,
    ensures
        value_of(z, (COL_OUT + lane) as usize) == value_of(
            z,
            (output_columns(block_count(op)) + lane) as usize,
        ),
{
    let count = block_count(op);
    let k = 4 * count + lane;
    assert(k / 4 == count && k % 4 == lane);
    assert(selection_rows(16)[k].holds(z, h));
    let out = (COL_OUT + lane) as usize;
    let chain = (output_columns(count) + lane) as usize;
    let terms = seq![(out, 1i64), (chain, -1i64)];
    lemma_group_row(OpcodeGroup::EventBlocks(count), "event commitment", terms, z, h, op);
    lemma_equal_values(z, out, chain);
}

/// The event of an opcode has at most three blocks, and at least one where there is one.
pub proof fn law_events_have_at_most_three_blocks(op: Opcode)
    ensures
        block_count(op) <= 3,
        block_count(op) > 0 <==> kind(op) is Some,
{
}

proof fn lemma_chain(z: Seq<u64>, h: spec_fn([u64; 4], [u64; 8]) -> [u64; 4], op: Opcode, n: int)
    requires
        valid_row(z, h),
        selects_only(z, op),
        satisfied(block_rows(336), z, h),
        satisfied(compression_rows(), z, h),
        0 <= n <= block_count(op) <= 3,
    ensures
        root(z, output_columns(n as usize)) == extended_by(h, root(z, COL_IN), blocks_at(z, op), n),
    decreases n,
{
    if n > 0 {
        lemma_chain(z, h, op, n - 1);
        lemma_link(z, h, op, n - 1);
        assert(blocks_at(z, op)[n - 1] == block_at(z, op, n - 1));
    }
}

} // verus!
