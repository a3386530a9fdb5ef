//! Per-coroutine event chains in the relation.

use vstd::prelude::*;

use crate::compression::{commit_block, compression_of, extended, is_compression};
use crate::events::{lemma_templates_well_indexed, well_indexed, EventKind, Word};
use crate::field::{canonical, field_add, field_inverse, field_mul, field_sub, inverse_or_zero, residue};
use crate::groups::OpcodeGroup;
use crate::layout::{
    COL_ARGUMENT_ROOT, COL_CALL_STACK_EXPECTED_ARG_VALUE, COL_CALL_STACK_EXPECTED_RESULT_VALUE,
    COL_CANONICAL_HIGH_INV, COL_CANONICAL_HIGH_MAX, COL_EVENT_BLOCKS, COL_EVENT_HASHES, COL_IN,
    COL_IN_WORDS, COL_METHOD_HASH_VALUE, COL_ONE, COL_OUT, COL_OUT_WORDS,
    COL_RESOURCE_RESOLVER_ADDR_HANDLE, COL_RESULT_ROOT, COLUMN_COUNT, ROW_WIDTH,
};
use crate::step::Wit;
use crate::opcode::{opcodes, Opcode, OPCODE_COUNT};
use crate::relation::{
    gated, linear, product, terms0, terms1, terms2, terms3, Builder, Constraint, Equation,
    EventCommitment,
};
use crate::trace::{halves, high_half, low_half, Step};

verus! {

/// The kind of event that an opcode emits, if it emits one.
#[verifier::allow_in_spec]
pub fn kind(op: Opcode) -> Option<EventKind>
    returns
        (match op {
            Opcode::NewUtxo => Some(EventKind::NewUtxo),
            Opcode::EnterConstructor => Some(EventKind::EnterConstructor),
            Opcode::YieldBegin => Some(EventKind::YieldBegin),
            Opcode::RegisterMethod => Some(EventKind::RegisterMethod),
            Opcode::Return => Some(EventKind::Return),
            Opcode::CallMethod => Some(EventKind::CallMethod),
            Opcode::EnterMethod => Some(EventKind::EnterMethod),
            Opcode::SetStorage => Some(EventKind::SetStorage),
            Opcode::GetStorage => Some(EventKind::GetStorage),
            _ => None,
        }),
{
    match op {
        Opcode::NewUtxo => Some(EventKind::NewUtxo),
        Opcode::EnterConstructor => Some(EventKind::EnterConstructor),
        Opcode::YieldBegin => Some(EventKind::YieldBegin),
        Opcode::RegisterMethod => Some(EventKind::RegisterMethod),
        Opcode::Return => Some(EventKind::Return),
        Opcode::CallMethod => Some(EventKind::CallMethod),
        Opcode::EnterMethod => Some(EventKind::EnterMethod),
        Opcode::SetStorage => Some(EventKind::SetStorage),
        Opcode::GetStorage => Some(EventKind::GetStorage),
        _ => None,
    }
}

/// The opcode of a step emits the event that the step emits, and emits one
/// exactly where [`Opcode::has_event`] says so.
pub proof fn law_opcode_emits_the_event_of_its_step(step: Step)
    ensures
        kind(Opcode::of_step(step)) == EventKind::of_step(step),
        Opcode::of_step(step).has_event() <==> EventKind::of_step(step) is Some,
{
}

/// Most blocks that an event may have.
pub const MAX_BLOCKS: usize = 3;

/// First of the four columns that hold a root: the chain before the row, the chain
/// after it, the argument and the result.
#[verifier::allow_in_spec]
pub fn root_fields(group: usize) -> usize
    returns
        (if group == 0 {
            COL_IN
        } else if group == 1 {
            COL_OUT
        } else if group == 2 {
            COL_ARGUMENT_ROOT
        } else {
            COL_RESULT_ROOT
        }),
{
    if group == 0 {
        COL_IN
    } else if group == 1 {
        COL_OUT
    } else if group == 2 {
        COL_ARGUMENT_ROOT
    } else {
        COL_RESULT_ROOT
    }
}

/// First of the eight columns that hold the limbs of a root.
#[verifier::allow_in_spec]
pub fn root_words(group: usize) -> usize
    returns
        (if group == 0 {
            COL_IN_WORDS
        } else if group == 1 {
            COL_OUT_WORDS
        } else if group == 2 {
            COL_CALL_STACK_EXPECTED_ARG_VALUE
        } else {
            COL_CALL_STACK_EXPECTED_RESULT_VALUE
        }),
{
    if group == 0 {
        COL_IN_WORDS
    } else if group == 1 {
        COL_OUT_WORDS
    } else if group == 2 {
        COL_CALL_STACK_EXPECTED_ARG_VALUE
    } else {
        COL_CALL_STACK_EXPECTED_RESULT_VALUE
    }
}

/// The four roots of a row: first field column and first limb column of each.
pub fn roots() -> (roots: [(usize, usize); 4])
    ensures
        forall|g: int|
            0 <= g < 4 ==> #[trigger] roots[g] == (root_fields(g as usize), root_words(g as usize)),
{
    [
        (root_fields(0), root_words(0)),
        (root_fields(1), root_words(1)),
        (root_fields(2), root_words(2)),
        (root_fields(3), root_words(3)),
    ]
}

/// Column of the chain after `block_count` blocks, first of four.
#[verifier::allow_in_spec]
pub fn output_columns(block_count: usize) -> usize
    requires
        block_count <= MAX_BLOCKS,
    returns
        (if block_count == 0 {
            COL_IN
        } else {
            (COL_EVENT_HASHES + 4 * (block_count - 1)) as usize
        }),
{
    if block_count == 0 {
        COL_IN
    } else {
        COL_EVENT_HASHES + 4 * (block_count - 1)
    }
}

/// Four columns from `first` on.
pub open spec fn four_columns(first: usize) -> [usize; 4] {
    [first, (first + 1) as usize, (first + 2) as usize, (first + 3) as usize]
}

/// Eight columns from `first` on.
pub open spec fn eight_columns(first: usize) -> [usize; 8] {
    [
        first,
        (first + 1) as usize,
        (first + 2) as usize,
        (first + 3) as usize,
        (first + 4) as usize,
        (first + 5) as usize,
        (first + 6) as usize,
        (first + 7) as usize,
    ]
}

/// The columns that compression of a block relates.
pub open spec fn gadget_of(block: usize) -> EventCommitment {
    EventCommitment {
        previous: four_columns(output_columns(block)),
        block: eight_columns((COL_EVENT_BLOCKS + 8 * block) as usize),
        output: four_columns((COL_EVENT_HASHES + 4 * block) as usize),
    }
}

fn columns4(first: usize) -> (columns: [usize; 4])
    requires
        first < COLUMN_COUNT,
    ensures
        columns == four_columns(first),
{
    [first, first + 1, first + 2, first + 3]
}

fn columns8(first: usize) -> (columns: [usize; 8])
    requires
        first < COLUMN_COUNT,
    ensures
        columns == eight_columns(first),
{
    [
        first,
        first + 1,
        first + 2,
        first + 3,
        first + 4,
        first + 5,
        first + 6,
        first + 7,
    ]
}

/// [`gadget_of`] a block.
fn gadget(block: usize) -> (columns: EventCommitment)
    requires
        block < MAX_BLOCKS,
    ensures
        columns == gadget_of(block),
{
    EventCommitment {
        previous: columns4(output_columns(block)),
        block: columns8(COL_EVENT_BLOCKS + 8 * block),
        output: columns4(COL_EVENT_HASHES + 4 * block),
    }
}

/// Column that a word comes from, and its coefficient.
pub open spec fn source_of(word: Word) -> (usize, i64) {
    match word {
        Word::Constant(x) => (COL_ONE, x as i64),
        Word::Resource => (COL_RESOURCE_RESOLVER_ADDR_HANDLE, 1i64),
        Word::Method(i) => ((COL_METHOD_HASH_VALUE + i) as usize, 1i64),
        Word::Argument(i) => ((COL_ARGUMENT_ROOT + i) as usize, 1i64),
        Word::Result(i) => ((COL_RESULT_ROOT + i) as usize, 1i64),
    }
}

/// [`source_of`] a word.
fn source(word: Word) -> (r: (usize, i64))
    requires
        well_indexed(word),
    ensures
        r == source_of(word),
        r.0 < COLUMN_COUNT,
        0 <= r.1 <= u32::MAX,
{
    match word {
        Word::Constant(x) => (COL_ONE, x as i64),
        Word::Resource => (COL_RESOURCE_RESOLVER_ADDR_HANDLE, 1),
        Word::Method(i) => (COL_METHOD_HASH_VALUE + i, 1),
        Word::Argument(i) => (COL_ARGUMENT_ROOT + i, 1),
        Word::Result(i) => (COL_RESULT_ROOT + i, 1),
    }
}

/// Word of an opcode's event; zero beyond its blocks.
pub open spec fn event_word(op: Opcode, block: int, lane: int) -> Word {
    match kind(op) {
        Some(kind) => if block < kind.template().len() {
            kind.template()[block][lane]
        } else {
            Word::Constant(0)
        },
        None => Word::Constant(0),
    }
}

/// The blocks of an opcode's event; none where it emits no event.
fn event_blocks(op: Opcode) -> (blocks: Vec<[Word; 8]>)
    ensures
        blocks@.len() == crate::groups::block_count(op),
        blocks@.len() <= MAX_BLOCKS,
        forall|b: int, lane: int|
            0 <= b < blocks@.len() && 0 <= lane < 8 ==> #[trigger] blocks@[b][lane] == event_word(
                op,
                b,
                lane,
            ) && well_indexed(blocks@[b][lane]),
{
    match kind(op) {
        Some(kind) => {
            let blocks = kind.blocks();
            assert forall|b: int, lane: int|
                0 <= b < blocks@.len() && 0 <= lane < 8 implies #[trigger] blocks@[b][lane]
                == event_word(op, b, lane) && well_indexed(blocks@[b][lane]) by {
                lemma_templates_well_indexed(kind, b, lane);
            }
            blocks
        },
        None => Vec::new(),
    }
}

/// A word of a list of blocks; zero beyond them.
fn word_of(blocks: &Vec<[Word; 8]>, block: usize, lane: usize) -> (word: Word)
    requires
        lane < 8,
    ensures
        word == (if block < blocks@.len() {
            blocks@[block as int][lane as int]
        } else {
            Word::Constant(0)
        }),
{
    if block < blocks.len() {
        blocks[block][lane]
    } else {
        Word::Constant(0)
    }
}

/// Rows that make limb columns the canonical limbs of field column `i` of a root.
///
/// The modulus is `0xffffffff00000001`: where the high limb is maximal, the low limb
/// has to be zero. The range of the limbs is constrained elsewhere.
pub open spec fn canonical_rows_of(group: usize, i: int) -> Seq<Equation> {
    let label = "canonical event roots";
    let field = (root_fields(group) + i) as usize;
    let low = (root_words(group) + 2 * i) as usize;
    let high = (root_words(group) + 2 * i + 1) as usize;
    let flag = (COL_CANONICAL_HIGH_MAX + 4 * group + i) as usize;
    let inverse = (COL_CANONICAL_HIGH_INV + 4 * group + i) as usize;
    let delta = seq![(high, 1i64), (COL_ONE, -0xffff_ffffi64)];
    seq![
        linear(label, seq![(field, 1i64), (low, -1i64), (high, -0x1_0000_0000i64)]),
        product(label, delta, seq![(inverse, 1i64)], seq![(COL_ONE, 1i64), (flag, -1i64)]),
        product(label, delta, seq![(flag, 1i64)], seq![]),
        product(label, seq![(low, 1i64)], seq![(flag, 1i64)], seq![]),
    ]
}

/// [`canonical_rows_of`] the first `n` field columns of the roots.
pub open spec fn canonical_rows(n: int) -> Seq<Equation>
    decreases n,
{
    if n <= 0 {
        seq![]
    } else {
        canonical_rows(n - 1) + canonical_rows_of(((n - 1) / 4) as usize, (n - 1) % 4)
    }
}

/// A lane of a block holds the word of the selected opcode's event.
pub open spec fn block_row(op: Opcode, block: int, lane: int) -> Equation {
    let (column, coefficient) = source_of(event_word(op, block, lane));
    gated(
        "event block encoding",
        op.selector(),
        seq![
            ((COL_EVENT_BLOCKS + 8 * block + lane) as usize, 1i64),
            (column, (-coefficient) as i64),
        ],
    )
}

/// The lanes of every block, opcode by opcode: the first `n` rows.
pub open spec fn block_rows(n: int) -> Seq<Equation> {
    Seq::new(
        n as nat,
        |k: int| block_row(opcodes()[k / 24], (k % 24) / 8, k % 8),
    )
}

/// The blocks are compressed one after the other.
pub open spec fn compression_rows() -> Seq<Equation> {
    Seq::new(
        3,
        |block: int|
            Equation::Compression {
                label: "event commitment",
                gadget: gadget_of(block as usize),
            },
    )
}

/// The chain after the row is the chain after the blocks of the selected opcode.
pub open spec fn selection_row(count: int, lane: int) -> Equation {
    product(
        "event commitment",
        OpcodeGroup::EventBlocks(count as usize).selectors(),
        seq![
            ((COL_OUT + lane) as usize, 1i64),
            ((output_columns(count as usize) + lane) as usize, -1i64),
        ],
        seq![],
    )
}

/// [`selection_row`] for every number of blocks and lane: the first `n` rows.
pub open spec fn selection_rows(n: int) -> Seq<Equation> {
    Seq::new(n as nat, |k: int| selection_row(k / 4, k % 4))
}

/// Rows of the event commitment. The chain is computed over all blocks; those of an
/// opcode are a prefix, and the output of the last one is selected. Padding selects
/// the chain before.
pub open spec fn commitment_rows() -> Seq<Equation> {
    canonical_rows(16) + block_rows(336) + compression_rows() + selection_rows(16)
}

fn push_canonical(b: &mut Builder, group: usize, i: usize)
    requires
        group < 4,
        i < 4,
    ensures
        final(b)@ == old(b)@ + canonical_rows_of(group, i as int),
{
    let label = "canonical event roots";
    let field = root_fields(group) + i;
    let low = root_words(group) + 2 * i;
    let high = root_words(group) + 2 * i + 1;
    let flag = COL_CANONICAL_HIGH_MAX + 4 * group + i;
    let inverse = COL_CANONICAL_HIGH_INV + 4 * group + i;
    b.push_linear_zero(label, terms3(field, 1, low, -1, high, -0x1_0000_0000));
    b.push_row(
        label,
        terms2(high, 1, COL_ONE, -0xffff_ffff),
        terms1(inverse, 1),
        terms2(COL_ONE, 1, flag, -1),
    );
    b.push_row(label, terms2(high, 1, COL_ONE, -0xffff_ffff), terms1(flag, 1), terms0());
    b.push_row(label, terms1(low, 1), terms1(flag, 1), terms0());
    assert(b@ =~= old(b)@ + canonical_rows_of(group, i as int));
}

fn push_block_rows(b: &mut Builder)
    ensures
        final(b)@ == old(b)@ + block_rows(336),
{
    let all = Opcode::all();
    let ghost start = b@;
    let mut o: usize = 0;
    assert(b@ =~= start + block_rows(0));
    while o < OPCODE_COUNT
        invariant
            all@ == opcodes(),
            all@.len() == OPCODE_COUNT,
            o <= OPCODE_COUNT,
            b@ == start + block_rows(24 * o),
        decreases OPCODE_COUNT - o,
    {
        let op = all[o];
        let blocks = event_blocks(op);
        let mut k: usize = 0;
        while k < 24
            invariant
                o < OPCODE_COUNT,
                op == opcodes()[o as int],
                blocks@.len() == crate::groups::block_count(op),
                blocks@.len() <= MAX_BLOCKS,
                forall|x: int, lane: int|
                    0 <= x < blocks@.len() && 0 <= lane < 8 ==> #[trigger] blocks@[x][lane]
                        == event_word(op, x, lane) && well_indexed(blocks@[x][lane]),
                k <= 24,
                b@ == start + block_rows(24 * o + k),
            decreases 24 - k,
        {
            let block = k / 8;
            let lane = k % 8;
            let word = word_of(&blocks, block, lane);
            assert(word == event_word(op, block as int, lane as int));
            let (column, coefficient) = source(word);
            b.push_gated_linear_zero(
                "event block encoding",
                op.selector(),
                terms2(COL_EVENT_BLOCKS + 8 * block + lane, 1, column, -coefficient),
            );
            assert((24 * o + k) / 24 == o);
            assert((24 * o + k) % 24 == k);
            assert((24 * o + k) % 8 == lane);
            k = k + 1;
            assert(b@ =~= start + block_rows(24 * o + k));
        }
        o = o + 1;
    }
}

fn push_selection_rows(b: &mut Builder)
    ensures
        final(b)@ == old(b)@ + selection_rows(16),
{
    let ghost start = b@;
    let mut k: usize = 0;
    assert(b@ =~= start + selection_rows(0));
    while k < 16
        invariant
            k <= 16,
            b@ == start + selection_rows(k as int),
        decreases 16 - k,
    {
        let count = k / 4;
        let lane = k % 4;
        b.push_row(
            "event commitment",
            OpcodeGroup::EventBlocks(count).selector_terms(),
            terms2(COL_OUT + lane, 1, output_columns(count) + lane, -1),
            terms0(),
        );
        k = k + 1;
        assert(b@ =~= start + selection_rows(k as int));
    }
}

/// Add the rows of the event commitment.
pub(crate) fn constraints(b: &mut Builder)
    ensures
        final(b)@ == old(b)@ + commitment_rows(),
{
    let ghost start = b@;
    let mut n: usize = 0;
    assert(b@ =~= start + canonical_rows(0));
    while n < 16
        invariant
            n <= 16,
            b@ == start + canonical_rows(n as int),
        decreases 16 - n,
    {
        push_canonical(b, n / 4, n % 4);
        n = n + 1;
        assert(b@ =~= start + canonical_rows(n as int));
    }
    push_block_rows(b);
    let ghost encoded = b@;
    let mut block: usize = 0;
    while block < MAX_BLOCKS
        invariant
            block <= MAX_BLOCKS,
            b@ == encoded + compression_rows().subrange(0, block as int),
        decreases MAX_BLOCKS - block,
    {
        b.push(Constraint::Compression { label: "event commitment", gadget: gadget(block) });
        block = block + 1;
        assert(b@ =~= encoded + compression_rows().subrange(0, block as int));
    }
    assert(compression_rows().subrange(0, 3) =~= compression_rows());
    push_selection_rows(b);
    assert(b@ =~= start + commitment_rows());
}

/// What the event of a row is made of.
pub struct EventBus {
    /// Chain before the row.
    pub input: [u64; 4],
    pub argument: [u64; 4],
    pub result: [u64; 4],
    pub blocks: [[u64; 8]; 3],
    /// Chain after each of the blocks.
    pub chains: [[u64; 4]; 3],
    /// Chain after the row.
    pub output: [u64; 4],
}

/// Four values of a row.
pub open spec fn row_values4(row: Seq<u64>, first: int) -> [u64; 4] {
    [row[first], row[first + 1], row[first + 2], row[first + 3]]
}

/// The field element that two limbs of a row stand for.
pub open spec fn joined(row: Seq<u64>, first: int) -> u64 {
    residue(row[first] + 0x1_0000_0000 * row[first + 1])
}

/// The four field elements that eight limbs of a row stand for.
pub open spec fn joined4(row: Seq<u64>, first: int) -> [u64; 4] {
    [
        joined(row, first),
        joined(row, first + 2),
        joined(row, first + 4),
        joined(row, first + 6),
    ]
}

/// Value that a word has in a row.
pub open spec fn word_in_row(row: Seq<u64>, word: Word) -> u64 {
    let argument = joined4(row, COL_CALL_STACK_EXPECTED_ARG_VALUE as int);
    let result = joined4(row, COL_CALL_STACK_EXPECTED_RESULT_VALUE as int);
    match word {
        Word::Constant(x) => residue(row[COL_ONE as int] * x),
        Word::Resource => residue(row[COL_RESOURCE_RESOLVER_ADDR_HANDLE as int] as int),
        Word::Method(i) => residue(row[COL_METHOD_HASH_VALUE + i] as int),
        Word::Argument(i) => argument[i as int],
        Word::Result(i) => result[i as int],
    }
}

/// Block of the event of an opcode, as a row gives it.
pub open spec fn block_in_row(row: Seq<u64>, op: Opcode, block: int) -> [u64; 8] {
    [
        word_in_row(row, event_word(op, block, 0)),
        word_in_row(row, event_word(op, block, 1)),
        word_in_row(row, event_word(op, block, 2)),
        word_in_row(row, event_word(op, block, 3)),
        word_in_row(row, event_word(op, block, 4)),
        word_in_row(row, event_word(op, block, 5)),
        word_in_row(row, event_word(op, block, 6)),
        word_in_row(row, event_word(op, block, 7)),
    ]
}

/// Chain after the first `n` blocks of a row.
pub open spec fn chain_in_row(
    row: Seq<u64>,
    op: Opcode,
    h: spec_fn([u64; 4], [u64; 8]) -> [u64; 4],
    n: int,
) -> [u64; 4]
    decreases n,
{
    if n <= 0 {
        row_values4(row, COL_IN as int)
    } else {
        extended(h, chain_in_row(row, op, h, n - 1), block_in_row(row, op, n - 1))
    }
}

/// What the event of an opcode is made of, as a row gives it.
pub open spec fn event_bus(
    row: Seq<u64>,
    op: Opcode,
    h: spec_fn([u64; 4], [u64; 8]) -> [u64; 4],
) -> EventBus {
    EventBus {
        input: row_values4(row, COL_IN as int),
        argument: joined4(row, COL_CALL_STACK_EXPECTED_ARG_VALUE as int),
        result: joined4(row, COL_CALL_STACK_EXPECTED_RESULT_VALUE as int),
        blocks: [block_in_row(row, op, 0), block_in_row(row, op, 1), block_in_row(row, op, 2)],
        chains: [
            chain_in_row(row, op, h, 1),
            chain_in_row(row, op, h, 2),
            chain_in_row(row, op, h, 3),
        ],
        output: chain_in_row(row, op, h, crate::groups::block_count(op) as int),
    }
}

/// A limb of a field element, the low one for an even index.
pub open spec fn limb(value: u64, index: int) -> u64 {
    if index % 2 == 0 {
        low_half(residue(value as int)) as u64
    } else {
        high_half(residue(value as int)) as u64
    }
}

/// High limb `i` of a root of a row.
pub open spec fn high_limb(bus: EventBus, row: Seq<u64>, group: int, i: int) -> u64 {
    if group == 0 {
        limb(bus.input[i], 1)
    } else if group == 1 {
        limb(bus.output[i], 1)
    } else if group == 2 {
        row[COL_CALL_STACK_EXPECTED_ARG_VALUE + 2 * i + 1]
    } else {
        row[COL_CALL_STACK_EXPECTED_RESULT_VALUE + 2 * i + 1]
    }
}

/// Distance of a high limb from the largest one.
pub open spec fn high_delta(bus: EventBus, row: Seq<u64>, k: int) -> u64 {
    residue(high_limb(bus, row, k / 4, k % 4) - 0xffff_ffff)
}

/// Value of a column of the event commitment.
pub open spec fn commitment_cell(bus: EventBus, row: Seq<u64>, column: int) -> u64 {
    if column < COL_OUT + 4 {
        bus.output[column - COL_OUT]
    } else if column < COL_IN_WORDS + 8 {
        limb(bus.input[(column - COL_IN_WORDS) / 2], column - COL_IN_WORDS)
    } else if column < COL_OUT_WORDS + 8 {
        limb(bus.output[(column - COL_OUT_WORDS) / 2], column - COL_OUT_WORDS)
    } else if column < COL_ARGUMENT_ROOT + 4 {
        bus.argument[column - COL_ARGUMENT_ROOT]
    } else if column < COL_RESULT_ROOT + 4 {
        bus.result[column - COL_RESULT_ROOT]
    } else if column < COL_CANONICAL_HIGH_MAX + 16 {
        if high_delta(bus, row, column - COL_CANONICAL_HIGH_MAX) == 0 {
            1
        } else {
            0
        }
    } else if column < COL_CANONICAL_HIGH_INV + 16 {
        inverse_or_zero(high_delta(bus, row, column - COL_CANONICAL_HIGH_INV))
    } else if column < COL_EVENT_BLOCKS + 24 {
        bus.blocks[(column - COL_EVENT_BLOCKS) / 8][(column - COL_EVENT_BLOCKS) % 8]
    } else {
        bus.chains[(column - COL_EVENT_HASHES) / 4][(column - COL_EVENT_HASHES) % 4]
    }
}

/// A row with the columns of the event commitment assigned from the others.
pub open spec fn with_commitment(
    row: Seq<u64>,
    op: Opcode,
    h: spec_fn([u64; 4], [u64; 8]) -> [u64; 4],
) -> Seq<u64> {
    Seq::new(
        row.len(),
        |c: int|
            if COL_OUT <= c < COLUMN_COUNT {
                commitment_cell(event_bus(row, op, h), row, c)
            } else {
                row[c]
            },
    )
}

fn join(row: &Vec<u64>, first: usize) -> (value: u64)
    requires
        row@.len() == ROW_WIDTH,
        first + 1 < ROW_WIDTH,
    ensures
        value == joined(row@, first as int),
{
    let low = row[first];
    let high = row[first + 1];
    proof {
        vstd::arithmetic::div_mod::lemma_add_mod_noop(
            low as int,
            0x1_0000_0000 * (high as int),
            crate::field::FIELD_MODULUS as int,
        );
        vstd::arithmetic::div_mod::lemma_small_mod(
            low as nat % (crate::field::FIELD_MODULUS as nat),
            crate::field::FIELD_MODULUS as nat,
        );
        assert(residue(low + residue(0x1_0000_0000 * high)) == residue(low + 0x1_0000_0000 * high))
            by {
            vstd::arithmetic::div_mod::lemma_add_mod_noop_right(
                low as int,
                0x1_0000_0000 * (high as int),
                crate::field::FIELD_MODULUS as int,
            );
        }
    }
    field_add(low, field_mul(0x1_0000_0000, high))
}

fn join4(row: &Vec<u64>, first: usize) -> (values: [u64; 4])
    requires
        row@.len() == ROW_WIDTH,
        first + 7 < ROW_WIDTH,
    ensures
        values == joined4(row@, first as int),
{
    [join(row, first), join(row, first + 2), join(row, first + 4), join(row, first + 6)]
}

/// [`word_in_row`] of a word, given the joined argument and result.
fn bus_word(row: &Vec<u64>, argument: [u64; 4], result: [u64; 4], word: Word) -> (value: u64)
    requires
        row@.len() == ROW_WIDTH,
        well_indexed(word),
        argument == joined4(row@, COL_CALL_STACK_EXPECTED_ARG_VALUE as int),
        result == joined4(row@, COL_CALL_STACK_EXPECTED_RESULT_VALUE as int),
    ensures
        value == word_in_row(row@, word),
{
    match word {
        Word::Constant(x) => field_mul(row[COL_ONE], x as u64),
        Word::Resource => canonical(row[COL_RESOURCE_RESOLVER_ADDR_HANDLE]),
        Word::Method(i) => canonical(row[COL_METHOD_HASH_VALUE + i]),
        Word::Argument(i) => argument[i],
        Word::Result(i) => result[i],
    }
}

/// [`block_in_row`] of a block.
fn bus_block(
    row: &Vec<u64>,
    argument: [u64; 4],
    result: [u64; 4],
    blocks: &Vec<[Word; 8]>,
    block: usize,
    Ghost(op): Ghost<Opcode>,
) -> (values: [u64; 8])
    requires
        row@.len() == ROW_WIDTH,
        block < MAX_BLOCKS,
        argument == joined4(row@, COL_CALL_STACK_EXPECTED_ARG_VALUE as int),
        result == joined4(row@, COL_CALL_STACK_EXPECTED_RESULT_VALUE as int),
        blocks@.len() == crate::groups::block_count(op),
        forall|b: int, lane: int|
            0 <= b < blocks@.len() && 0 <= lane < 8 ==> #[trigger] blocks@[b][lane] == event_word(
                op,
                b,
                lane,
            ) && well_indexed(blocks@[b][lane]),
    ensures
        values == block_in_row(row@, op, block as int),
{
    [
        bus_word(row, argument, result, word_of(blocks, block, 0)),
        bus_word(row, argument, result, word_of(blocks, block, 1)),
        bus_word(row, argument, result, word_of(blocks, block, 2)),
        bus_word(row, argument, result, word_of(blocks, block, 3)),
        bus_word(row, argument, result, word_of(blocks, block, 4)),
        bus_word(row, argument, result, word_of(blocks, block, 5)),
        bus_word(row, argument, result, word_of(blocks, block, 6)),
        bus_word(row, argument, result, word_of(blocks, block, 7)),
    ]
}

/// [`event_bus`] of a row.
fn read_bus<C: Fn([u64; 4], [u64; 8]) -> [u64; 4]>(
    row: &Vec<u64>,
    op: Opcode,
    compress: &C,
) -> (bus: EventBus)
    requires
        is_compression(*compress),
        row@.len() == ROW_WIDTH,
    ensures
        bus == event_bus(row@, op, compression_of(*compress)),
{
    let ghost h = compression_of(*compress);
    let input = [row[COL_IN], row[COL_IN + 1], row[COL_IN + 2], row[COL_IN + 3]];
    let argument = join4(row, COL_CALL_STACK_EXPECTED_ARG_VALUE);
    let result = join4(row, COL_CALL_STACK_EXPECTED_RESULT_VALUE);
    let blocks = event_blocks(op);
    let first = bus_block(row, argument, result, &blocks, 0, Ghost(op));
    let second = bus_block(row, argument, result, &blocks, 1, Ghost(op));
    let third = bus_block(row, argument, result, &blocks, 2, Ghost(op));
    proof {
        reveal_with_fuel(chain_in_row, 4);
    }
    let chain1 = commit_block(input, first, compress);
    let chain2 = commit_block(chain1, second, compress);
    let chain3 = commit_block(chain2, third, compress);
    let count = blocks.len();
    let output = if count == 0 {
        input
    } else if count == 1 {
        chain1
    } else if count == 2 {
        chain2
    } else {
        chain3
    };
    EventBus {
        input,
        argument,
        result,
        blocks: [first, second, third],
        chains: [chain1, chain2, chain3],
        output,
    }
}

/// [`limb`] of a field element.
fn limb_of(value: u64, index: usize) -> (r: u64)
    ensures
        r == limb(value, index as int),
{
    let (low, high) = halves(canonical(value));
    if index % 2 == 0 {
        low as u64
    } else {
        high as u64
    }
}

/// [`high_delta`] of a root.
fn delta_of(bus: &EventBus, row: &Vec<u64>, k: usize) -> (delta: u64)
    requires
        row@.len() == ROW_WIDTH,
        k < 16,
    ensures
        delta == high_delta(*bus, row@, k as int),
{
    let group = k / 4;
    let i = k % 4;
    let high = if group == 0 {
        limb_of(bus.input[i], 1)
    } else if group == 1 {
        limb_of(bus.output[i], 1)
    } else if group == 2 {
        row[COL_CALL_STACK_EXPECTED_ARG_VALUE + 2 * i + 1]
    } else {
        row[COL_CALL_STACK_EXPECTED_RESULT_VALUE + 2 * i + 1]
    };
    field_sub(high, 0xffff_ffff)
}

/// [`commitment_cell`] of a column.
fn cell_of(bus: &EventBus, row: &Vec<u64>, column: usize) -> (value: u64)
    requires
        row@.len() == ROW_WIDTH,
        COL_OUT <= column < COLUMN_COUNT,
    ensures
        value == commitment_cell(*bus, row@, column as int),
{
    if column < COL_OUT + 4 {
        bus.output[column - COL_OUT]
    } else if column < COL_IN_WORDS + 8 {
        limb_of(bus.input[(column - COL_IN_WORDS) / 2], column - COL_IN_WORDS)
    } else if column < COL_OUT_WORDS + 8 {
        limb_of(bus.output[(column - COL_OUT_WORDS) / 2], column - COL_OUT_WORDS)
    } else if column < COL_ARGUMENT_ROOT + 4 {
        bus.argument[column - COL_ARGUMENT_ROOT]
    } else if column < COL_RESULT_ROOT + 4 {
        bus.result[column - COL_RESULT_ROOT]
    } else if column < COL_CANONICAL_HIGH_MAX + 16 {
        if delta_of(bus, row, column - COL_CANONICAL_HIGH_MAX) == 0 {
            1
        } else {
            0
        }
    } else if column < COL_CANONICAL_HIGH_INV + 16 {
        field_inverse(delta_of(bus, row, column - COL_CANONICAL_HIGH_INV))
    } else if column < COL_EVENT_BLOCKS + 24 {
        bus.blocks[(column - COL_EVENT_BLOCKS) / 8][(column - COL_EVENT_BLOCKS) % 8]
    } else {
        bus.chains[(column - COL_EVENT_HASHES) / 4][(column - COL_EVENT_HASHES) % 4]
    }
}

/// Assign the columns of the event commitment from the chain before the row and the
/// semantic columns. A row whose semantic columns were changed gets the commitment of
/// the changed values.
pub fn assign_from_bus<C: Fn([u64; 4], [u64; 8]) -> [u64; 4]>(
    row: &mut Vec<u64>,
    opcode: Opcode,
    compress: &C,
)
    requires
        is_compression(*compress),
        old(row)@.len() == ROW_WIDTH,
    ensures
        final(row)@ == with_commitment(old(row)@, opcode, compression_of(*compress)),
{
    let ghost start = row@;
    let ghost h = compression_of(*compress);
    let bus = read_bus(row, opcode, compress);
    let mut c: usize = COL_OUT;
    while c < COLUMN_COUNT
        invariant
            start.len() == ROW_WIDTH,
            row@.len() == ROW_WIDTH,
            bus == event_bus(start, opcode, h),
            COL_OUT <= c <= COLUMN_COUNT,
            forall|i: int|
                0 <= i < ROW_WIDTH ==> #[trigger] row@[i] == (if COL_OUT <= i < c {
                    commitment_cell(bus, start, i)
                } else {
                    start[i]
                }),
        decreases COLUMN_COUNT - c,
    {
        let value = cell_of(&bus, row, c);
        row[c] = value;
        c = c + 1;
    }
    assert(row@ =~= with_commitment(start, opcode, h));
}

/// A row with the chain before it assigned.
pub open spec fn with_input(row: Seq<u64>, chain: [u64; 4]) -> Seq<u64> {
    Seq::new(
        row.len(),
        |c: int|
            if COL_IN <= c < COL_IN + 4 {
                chain[c - COL_IN]
            } else {
                row[c]
            },
    )
}

/// Assign the columns of the event commitment, the chain before the row included.
pub fn assign<C: Fn([u64; 4], [u64; 8]) -> [u64; 4]>(row: &mut Vec<u64>, input: &Wit, compress: &C)
    requires
        is_compression(*compress),
        old(row)@.len() == ROW_WIDTH,
    ensures
        final(row)@ == with_commitment(
            with_input(old(row)@, input.commitment_before),
            input.opcode,
            compression_of(*compress),
        ),
{
    let ghost start = row@;
    row[COL_IN] = input.commitment_before[0];
    row[COL_IN + 1] = input.commitment_before[1];
    row[COL_IN + 2] = input.commitment_before[2];
    row[COL_IN + 3] = input.commitment_before[3];
    assert(row@ =~= with_input(start, input.commitment_before));
    assign_from_bus(row, input.opcode, compress);
}

} // verus!
