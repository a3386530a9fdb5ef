//! What the check of a trace accepts, whatever the size of the batches.

use vstd::prelude::*;

use crate::assignment::law_rows_show_their_records;
use crate::batch::{
    batch_count, batch_links, batch_rows, batches_satisfied, carries, continuous,
    law_check_is_exact, lemma_carried_bounded, origin_of, packed_origins, packed_rows,
    slot_witness, valid_batch_size,
};
use crate::batching::{law_batch_is_its_slots, lemma_mapped_at, slot_row};
use crate::ccs::relation_rows;
use crate::commitment_rules::canonical_pair;
use crate::field::residue;
use crate::ivc_state::{carried, CoroutineKind, TxPhase};
use crate::layout::{
    bit_of, lemma_bit_of, width_of, COLUMN_COUNT, ROW_WIDTH, COL_ABI_READ_ORDINAL_AFTER,
    COL_ABI_READ_REMAINING_AFTER, COL_CALL_SP_AFTER, COL_CALL_SP_BEFORE,
    COL_CALL_STACK_EXPECTED_ADDR_STRIDE_8, COL_CALL_STACK_EXPECTED_ARG_VALUE,
    COL_CALL_STACK_MUL_STRIDE_8, COL_CALL_STACK_POP, COL_CALL_STACK_TOP, COL_CURR_AFTER,
    COL_EVENT_OWNER, COL_EVENT_OWNER_STRIDE_8, COL_IN, COL_ONE, COL_PENDING_CTOR_HOLDER_AFTER,
    COL_TX_PHASE_AFTER, COL_TX_PHASE_BEFORE,
};
use crate::legality::{acceptable, kind_of, law_rows_are_exact, legal, lemma_covered};
use crate::memory::{
    initial_stores, memory_consistent, memory_layout, table_words, value_of,
};
use crate::memory_batching::{
    flattened, idle, law_idle_rows_do_not_touch_memory, law_memory_of_batches_is_that_of_slots,
    lemma_slot_place,
};
use crate::opcode::Opcode;
use crate::range_rules::in_range;
use crate::relation::satisfied;
use crate::statement::statement_holds;
use crate::step::Wit;
use crate::trace::{MethodHash, TransactionStatement};
use crate::verify::{
    final_chains, lemma_slot_index, lemma_slot_of_packed, step_rows, terminal_rows, unpacked,
    verify_outcome,
};
use crate::witness::{holder_of, lane, semantic_row, with_strides, witness_row};
use vstd::arithmetic::div_mod::lemma_fundamental_div_mod_converse;
use vstd::arithmetic::power2::{lemma2_to64, pow2};

verus! {

/// The rows of some steps.
pub open spec fn witness_rows(
    steps: Seq<Wit>,
    h: spec_fn([u64; 4], [u64; 8]) -> [u64; 4],
) -> Seq<Seq<u64>> {
    Seq::new(steps.len(), |i: int| witness_row(steps[i], h))
}

/// The rows of those of the first `n` steps that are not padding.
pub open spec fn genuine_rows(
    steps: Seq<Wit>,
    h: spec_fn([u64; 4], [u64; 8]) -> [u64; 4],
    n: int,
) -> Seq<Seq<u64>>
    decreases n,
{
    if n <= 0 {
        seq![]
    } else if steps[n - 1].opcode == Opcode::Padding {
        genuine_rows(steps, h, n - 1)
    } else {
        genuine_rows(steps, h, n - 1).push(witness_row(steps[n - 1], h))
    }
}

/// What the check accepts. Every step keeps the rules; each hands its state to the next;
/// memory agrees with every access; the statement and the trace commitments, where they
/// are given, are those of the trace; and execution ended with an empty call stack, in a
/// coordinator, and without a statement in the phase `Running`.
pub open spec fn accepted(
    steps: Seq<Wit>,
    table: Seq<MethodHash>,
    expected: Option<Map<u32, [u64; 4]>>,
    statement: Option<TransactionStatement>,
    h: spec_fn([u64; 4], [u64; 8]) -> [u64; 4],
) -> bool {
    let rows = witness_rows(steps, h);
    let genuine = genuine_rows(steps, h, steps.len() as int);
    let stores = initial_stores(memory_layout(), table_words(table));
    &&& steps.len() > 0
    &&& forall|i: int| 0 <= i < steps.len() ==> #[trigger] acceptable(steps[i], h)
    &&& memory_consistent(memory_layout(), rows, stores)
    &&& continuous(carried(), rows)
    &&& statement is Some ==> statement_holds(genuine, statement->0)
    &&& expected is Some ==> final_chains(genuine, genuine.len() as int) == expected->0
    &&& statement is None ==> steps.last().tx_after.phase == TxPhase::Running
    &&& residue(steps.last().call_sp_after as int) == 0
    &&& kind_of(steps.last().curr_after) == CoroutineKind::Coord
}

/// A padding step opens no port.
proof fn lemma_padding_is_idle(w: Wit, h: spec_fn([u64; 4], [u64; 8]) -> [u64; 4])
    ensures
        idle(witness_row(w.padding(), h)),
{
    let z = witness_row(w.padding(), h);
    law_rows_show_their_records(w.padding(), h);
    assert(value_of(z, Opcode::CallMethod.selector()) == 0);
    assert(value_of(z, Opcode::ReadAbi.selector()) == 0);
    assert(value_of(z, Opcode::YieldBegin.selector()) == 0);
    assert forall|m: int, q: int|
        0 <= m < memory_layout().len() && 0 <= q < memory_layout()[m].ports.len() implies !(
    #[trigger] memory_layout()[m].ports[q]).active(z) by {
        if m < 4 {
            assert(memory_layout()[m] == crate::memory::stack_memories()[m]);
        } else if m < 9 {
            assert(memory_layout()[m] == crate::memory::method_memories()[m - 4]);
        } else {
            assert(memory_layout()[m] == crate::memory::instance_memories()[m - 9]);
        }
    }
}

/// A step hands its state to padding after it, and padding to more padding.
proof fn lemma_padding_carries(
    w: Wit,
    h: spec_fn([u64; 4], [u64; 8]) -> [u64; 4],
    i: int,
)
    requires
        0 <= i < carried().len(),
    ensures
        carries(carried()[i], witness_row(w, h), witness_row(w.padding(), h)),
        carries(carried()[i], witness_row(w.padding(), h), witness_row(w.padding(), h)),
{
    law_rows_show_their_records(w, h);
    law_rows_show_their_records(w.padding(), h);
}

/// What a step in range leaves behind is in range.
proof fn lemma_left_in_range(w: Wit, h: spec_fn([u64; 4], [u64; 8]) -> [u64; 4])
    requires
        in_range(witness_row(w, h)),
    ensures
        w.curr_after.packed() <= u32::MAX,
        w.call_sp_after <= u32::MAX,
        w.tx_after.abi_read_remaining <= 255,
        w.tx_after.abi_read_ordinal <= 255,
        holder_of(w.pending_ctor_key_after) <= u32::MAX,
{
    let z = witness_row(w, h);
    lemma2_to64();
    assert(z[COL_CURR_AFTER as int] == w.curr_after.packed());
    assert(z[COL_CALL_SP_AFTER as int] == w.call_sp_after);
    assert(z[COL_ABI_READ_REMAINING_AFTER as int] == w.tx_after.abi_read_remaining);
    assert(z[COL_ABI_READ_ORDINAL_AFTER as int] == w.tx_after.abi_read_ordinal);
    assert(z[COL_PENDING_CTOR_HOLDER_AFTER as int] == holder_of(w.pending_ctor_key_after));
}

/// A column of padding that is assigned from the record is in range.
proof fn lemma_padding_cell(w: Wit, c: int)
    requires
        w.curr_after.packed() <= u32::MAX,
        w.call_sp_after == 0,
        w.tx_after.abi_read_remaining <= 255,
        w.tx_after.abi_read_ordinal <= 255,
        holder_of(w.pending_ctor_key_after) <= u32::MAX,
        0 <= c < COL_IN,
        width_of(c) > 0,
    ensures
        semantic_row(w.padding())[c] < pow2(width_of(c)),
{
    lemma2_to64();
}

/// Padding after a step that left an empty call stack is in range.
proof fn lemma_padding_in_range(w: Wit, h: spec_fn([u64; 4], [u64; 8]) -> [u64; 4])
    requires
        in_range(witness_row(w, h)),
        residue(w.call_sp_after as int) == 0,
    ensures
        in_range(witness_row(w.padding(), h)),
{
    let p = w.padding();
    let z = witness_row(p, h);
    lemma_left_in_range(w, h);
    vstd::arithmetic::div_mod::lemma_small_mod(
        w.call_sp_after as nat,
        crate::field::FIELD_MODULUS as nat,
    );
    assert forall|c: int| 0 <= c < COLUMN_COUNT && width_of(c) > 0 implies (#[trigger] z[c])
        < pow2(width_of(c)) by {
        lemma2_to64();
        if c < COL_IN {
            lemma_padding_cell(w, c);
            let row = with_strides(semantic_row(p));
            assert(z[c] == row[c]);
            if COL_CALL_STACK_MUL_STRIDE_8 <= c < COL_CALL_STACK_EXPECTED_ARG_VALUE
                || COL_EVENT_OWNER_STRIDE_8 <= c < COL_TX_PHASE_BEFORE {
                lemma_padding_stride(p, c);
            }
        } else {
            crate::commitment_rules::lemma_commitment_cell(p, h, c);
        }
    }
}

/// The strided addresses of padding with an empty call stack are small.
proof fn lemma_padding_stride(p: Wit, c: int)
    requires
        p.opcode == Opcode::Padding,
        p.call_sp_before == 0,
        p.event_owner.packed() == 0,
        COL_CALL_STACK_MUL_STRIDE_8 <= c < COL_CALL_STACK_EXPECTED_ARG_VALUE
            || COL_EVENT_OWNER_STRIDE_8 <= c < COL_TX_PHASE_BEFORE,
    ensures
        with_strides(semantic_row(p))[c] < 16,
{
    let m = crate::field::FIELD_MODULUS as nat;
    let row = semantic_row(p);
    assert(row[COL_CALL_STACK_TOP as int] == 0);
    assert(row[COL_CALL_STACK_POP as int] == 0);
    assert(row[COL_CALL_SP_BEFORE as int] == 0);
    assert(row[COL_EVENT_OWNER as int] == 0);
    if c < COL_CALL_STACK_EXPECTED_ADDR_STRIDE_8 {
        let i = c - COL_CALL_STACK_MUL_STRIDE_8;
        vstd::arithmetic::div_mod::lemma_small_mod(i as nat, m);
    } else if c < COL_CALL_STACK_EXPECTED_ARG_VALUE {
        let i = c - COL_CALL_STACK_EXPECTED_ADDR_STRIDE_8;
        vstd::arithmetic::div_mod::lemma_small_mod(i as nat, m);
    } else {
        let i = c - COL_EVENT_OWNER_STRIDE_8;
        vstd::arithmetic::div_mod::lemma_small_mod(i as nat, m);
    }
}

/// Padding keeps the rules.
pub proof fn law_padding_is_legal(w: Wit)
    ensures
        legal(w.padding()),
{
}

/// Padding after an accepted step that left an empty call stack is accepted.
proof fn lemma_padding_acceptable(w: Wit, h: spec_fn([u64; 4], [u64; 8]) -> [u64; 4])
    requires
        acceptable(w, h),
        residue(w.call_sp_after as int) == 0,
    ensures
        acceptable(w.padding(), h),
{
    reveal(acceptable);
    lemma_padding_in_range(w, h);
    law_padding_is_legal(w);
    assert forall|i: int| 0 <= i < 4 implies canonical_pair(
        #[trigger] lane(None, 2 * i),
        lane(None, 2 * i + 1),
    ) by {}
}

/// The rows of the slots of the batches of some steps.
pub open spec fn slot_rows(
    steps: Seq<Wit>,
    size: int,
    h: spec_fn([u64; 4], [u64; 8]) -> [u64; 4],
) -> Seq<Seq<u64>> {
    Seq::new(
        (batch_count(steps.len() as int, size) * size) as nat,
        |i: int| slot_witness(steps, i, h),
    )
}

/// The slots of packed steps are the rows that were packed.
proof fn lemma_slots(steps: Seq<Wit>, size: int, h: spec_fn([u64; 4], [u64; 8]) -> [u64; 4])
    requires
        0 < size,
        ROW_WIDTH * size <= usize::MAX,
    ensures
        flattened(packed_rows(steps, size, h), size) == slot_rows(steps, size, h),
        slot_rows(steps, size, h).len() == batch_count(steps.len() as int, size) * size,
        packed_rows(steps, size, h).len() == batch_count(steps.len() as int, size),
{
    let rows = packed_rows(steps, size, h);
    let count = batch_count(steps.len() as int, size);
    lemma_covered(steps.len() as int, size);
    assert(count >= 0) by (nonlinear_arith)
        requires
            0 <= count * size,
            0 < size,
    ;
    assert forall|i: int| 0 <= i < count * size implies #[trigger] flattened(rows, size)[i]
        == slot_rows(steps, size, h)[i] by {
        lemma_slot_index(count, size, i);
        lemma_slot_of_packed(steps, size, i / size, i % size, h);
    }
    assert(flattened(rows, size) =~= slot_rows(steps, size, h));
}

/// Batches hand their state on exactly where the last slot of each hands it to the first
/// slot of the next.
proof fn lemma_boundary(
    previous: Seq<u64>,
    next: Seq<u64>,
    size: int,
    i: int,
)
    requires
        0 < size,
        ROW_WIDTH * size <= usize::MAX,
        previous.len() == ROW_WIDTH * size,
        next.len() == ROW_WIDTH * size,
        0 <= i < carried().len(),
    ensures
        carries(batch_links(size)[i], previous, next) <==> carries(
            carried()[i],
            slot_row(previous, size, size - 1),
            slot_row(next, size, 0),
        ),
{
    lemma_carried_bounded(i);
    lemma_mapped_at(previous, size, size - 1, carried()[i].previous_step_column);
    lemma_mapped_at(next, size, 0, carried()[i].next_step_column);
}

/// Two neighbouring slots belong to one batch, or end one and start the next.
proof fn lemma_neighbours(count: int, size: int, i: int)
    requires
        0 < size,
        0 <= i,
        i + 1 < count * size,
    ensures
        0 <= i / size < count,
        i % size + 1 < size ==> (i + 1) / size == i / size && (i + 1) % size == i % size + 1,
        i % size + 1 == size ==> (i + 1) / size == i / size + 1 && (i + 1) % size == 0 && i / size
            + 1 < count,
        0 <= i % size < size,
{
    lemma_slot_index(count, size, i);
    lemma_slot_index(count, size, i + 1);
    let b = i / size;
    let slot = i % size;
    if slot + 1 < size {
        lemma_fundamental_div_mod_converse(i + 1, size, b, slot + 1);
    } else {
        assert(i + 1 == size * (b + 1) + 0) by (nonlinear_arith)
            requires
                i == b * size + slot,
                slot + 1 == size,
        ;
        lemma_fundamental_div_mod_converse(i + 1, size, b + 1, 0);
    }
}

/// Whether batches have the width of their size, with one as their public constant.
pub open spec fn well_packed(rows: Seq<Seq<u64>>, size: int) -> bool {
    forall|b: int|
        0 <= b < rows.len() ==> (#[trigger] rows[b]).len() == ROW_WIDTH * size && value_of(
            rows[b],
            COL_ONE,
        ) == 1
}

/// Whether batches meet their relation and hand their state on.
pub open spec fn batches_hold(
    rows: Seq<Seq<u64>>,
    size: int,
    h: spec_fn([u64; 4], [u64; 8]) -> [u64; 4],
) -> bool {
    &&& forall|b: int| 0 <= b < rows.len() ==> satisfied(batch_rows(size), #[trigger] rows[b], h)
    &&& continuous(batch_links(size), rows)
}

/// Whether rows meet the relation and hand their state on.
pub open spec fn rows_hold(
    rows: Seq<Seq<u64>>,
    h: spec_fn([u64; 4], [u64; 8]) -> [u64; 4],
) -> bool {
    &&& forall|i: int| 0 <= i < rows.len() ==> satisfied(relation_rows(), #[trigger] rows[i], h)
    &&& continuous(carried(), rows)
}

/// The rows of the slots, by batch and slot.
proof fn lemma_flat_at(rows: Seq<Seq<u64>>, size: int, b: int, slot: int)
    requires
        0 <= b < rows.len(),
        0 <= slot < size,
    ensures
        0 <= b * size + slot < flattened(rows, size).len(),
        flattened(rows, size)[b * size + slot] == slot_row(rows[b], size, slot),
{
    lemma_slot_place(rows.len() as int, size, b, slot);
}

proof fn lemma_slot_satisfied(
    rows: Seq<Seq<u64>>,
    size: usize,
    h: spec_fn([u64; 4], [u64; 8]) -> [u64; 4],
    i: int,
)
    requires
        valid_batch_size(size),
        well_packed(rows, size as int),
        batches_hold(rows, size as int, h),
        0 <= i < rows.len() * size,
    ensures
        satisfied(relation_rows(), flattened(rows, size as int)[i], h),
{
    let s = size as int;
    lemma_slot_index(rows.len() as int, s, i);
    let b = i / s;
    law_batch_is_its_slots(rows[b], size, h);
    assert(satisfied(relation_rows(), slot_row(rows[b], s, i % s), h));
}

proof fn lemma_slot_carries(
    rows: Seq<Seq<u64>>,
    size: usize,
    h: spec_fn([u64; 4], [u64; 8]) -> [u64; 4],
    i: int,
    k: int,
)
    requires
        valid_batch_size(size),
        well_packed(rows, size as int),
        batches_hold(rows, size as int, h),
        0 <= i,
        i + 1 < rows.len() * size,
        0 <= k < carried().len(),
    ensures
        carries(
            carried()[k],
            flattened(rows, size as int)[i],
            flattened(rows, size as int)[i + 1],
        ),
{
    let s = size as int;
    lemma_neighbours(rows.len() as int, s, i);
    let b = i / s;
    let slot = i % s;
    if slot + 1 < s {
        law_batch_is_its_slots(rows[b], size, h);
        assert(carries(carried()[k], slot_row(rows[b], s, slot), slot_row(rows[b], s, slot + 1)));
    } else {
        assert(carries(batch_links(s)[k], rows[b], rows[b + 1]));
        lemma_boundary(rows[b], rows[b + 1], s, k);
    }
}

proof fn lemma_batch_satisfied(
    rows: Seq<Seq<u64>>,
    size: usize,
    h: spec_fn([u64; 4], [u64; 8]) -> [u64; 4],
    b: int,
)
    requires
        valid_batch_size(size),
        well_packed(rows, size as int),
        rows_hold(flattened(rows, size as int), h),
        0 <= b < rows.len(),
    ensures
        satisfied(batch_rows(size as int), rows[b], h),
{
    let s = size as int;
    let slots = flattened(rows, s);
    assert forall|slot: int| 0 <= slot < s implies satisfied(
        relation_rows(),
        #[trigger] slot_row(rows[b], s, slot),
        h,
    ) by {
        lemma_flat_at(rows, s, b, slot);
    }
    assert forall|slot: int, i: int|
        0 <= slot && slot + 1 < s && 0 <= i < carried().len() implies #[trigger] carries(
        carried()[i],
        slot_row(rows[b], s, slot),
        slot_row(rows[b], s, slot + 1),
    ) by {
        lemma_flat_at(rows, s, b, slot);
        lemma_flat_at(rows, s, b, slot + 1);
        let k = b * s + slot;
        assert(carries(carried()[i], slots[k], slots[k + 1]));
    }
    law_batch_is_its_slots(rows[b], size, h);
}

proof fn lemma_batch_carries(
    rows: Seq<Seq<u64>>,
    size: usize,
    h: spec_fn([u64; 4], [u64; 8]) -> [u64; 4],
    b: int,
    i: int,
)
    requires
        valid_batch_size(size),
        well_packed(rows, size as int),
        rows_hold(flattened(rows, size as int), h),
        0 <= b,
        b + 1 < rows.len(),
        0 <= i < carried().len(),
    ensures
        carries(batch_links(size as int)[i], rows[b], rows[b + 1]),
{
    let s = size as int;
    let slots = flattened(rows, s);
    lemma_flat_at(rows, s, b, s - 1);
    lemma_flat_at(rows, s, b + 1, 0);
    let k = b * s + (s - 1);
    assert((b + 1) * s + 0 == k + 1) by (nonlinear_arith)
        requires
            k == b * s + (s - 1),
    ;
    assert(carries(carried()[i], slots[k], slots[k + 1]));
    lemma_boundary(rows[b], rows[b + 1], s, i);
}

/// Batches meet their relation and hand their state on exactly where their slots do.
pub proof fn law_batches_hold_where_slots_do(
    rows: Seq<Seq<u64>>,
    size: usize,
    h: spec_fn([u64; 4], [u64; 8]) -> [u64; 4],
)
    requires
        valid_batch_size(size),
        well_packed(rows, size as int),
    ensures
        batches_hold(rows, size as int, h) <==> rows_hold(flattened(rows, size as int), h),
{
    let s = size as int;
    let slots = flattened(rows, s);
    assert(0 <= rows.len() * s) by (nonlinear_arith)
        requires
            0 < s,
    ;
    if batches_hold(rows, s, h) {
        assert forall|i: int| 0 <= i < slots.len() implies satisfied(
            relation_rows(),
            #[trigger] slots[i],
            h,
        ) by {
            lemma_slot_satisfied(rows, size, h, i);
        }
        assert forall|i: int, k: int|
            0 <= i && i + 1 < slots.len() && 0 <= k < carried().len() implies #[trigger] carries(
            carried()[k],
            slots[i],
            slots[i + 1],
        ) by {
            lemma_slot_carries(rows, size, h, i, k);
        }
    }
    if rows_hold(slots, h) {
        assert forall|b: int| 0 <= b < rows.len() implies satisfied(
            batch_rows(s),
            #[trigger] rows[b],
            h,
        ) by {
            lemma_batch_satisfied(rows, size, h, b);
        }
        assert forall|b: int, i: int|
            0 <= b && b + 1 < rows.len() && 0 <= i < batch_links(s).len() implies #[trigger] carries(
            batch_links(s)[i],
            rows[b],
            rows[b + 1],
        ) by {
            lemma_batch_carries(rows, size, h, b, i);
        }
    }
}

/// Packed steps have the width of their size, with one as their public constant.
proof fn lemma_packed_wells(
    steps: Seq<Wit>,
    size: usize,
    h: spec_fn([u64; 4], [u64; 8]) -> [u64; 4],
)
    requires
        valid_batch_size(size),
    ensures
        well_packed(packed_rows(steps, size as int, h), size as int),
{
    let s = size as int;
    let rows = packed_rows(steps, s, h);
    assert forall|b: int| 0 <= b < rows.len() implies (#[trigger] rows[b]).len() == ROW_WIDTH * s
        && value_of(rows[b], COL_ONE) == 1 by {
        lemma_slot_of_packed(steps, s, b, 0, h);
        vstd::arithmetic::div_mod::lemma_small_mod(1, crate::field::FIELD_MODULUS as nat);
        assert(0 <= ROW_WIDTH * s);
    }
}

/// Packed steps satisfy relation, memory and continuity exactly where their slots do.
pub proof fn law_packed_steps_are_their_slots(
    steps: Seq<Wit>,
    size: usize,
    words: Seq<u64>,
    h: spec_fn([u64; 4], [u64; 8]) -> [u64; 4],
)
    requires
        valid_batch_size(size),
    ensures
        batches_satisfied(size, packed_rows(steps, size as int, h), words, h) <==> {
            let slots = slot_rows(steps, size as int, h);
            &&& rows_hold(slots, h)
            &&& memory_consistent(memory_layout(), slots, initial_stores(memory_layout(), words))
        },
{
    let s = size as int;
    let rows = packed_rows(steps, s, h);
    lemma_slots(steps, s, h);
    lemma_packed_wells(steps, size, h);
    law_batches_hold_where_slots_do(rows, size, h);
    law_memory_of_batches_is_that_of_slots(rows, s, words);
    let widths = forall|b: int|
        0 <= b < rows.len() ==> (#[trigger] rows[b]).len() == ROW_WIDTH * size && satisfied(
            batch_rows(s),
            rows[b],
            h,
        );
    assert(widths <==> (forall|b: int|
        0 <= b < rows.len() ==> satisfied(batch_rows(s), #[trigger] rows[b], h)));
}

/// The rows of the slots that come from a step are the rows of the steps that are not
/// padding.
proof fn lemma_genuine(
    steps: Seq<Wit>,
    size: int,
    h: spec_fn([u64; 4], [u64; 8]) -> [u64; 4],
    n: int,
)
    requires
        0 < size,
        ROW_WIDTH * size <= usize::MAX,
        0 <= n <= batch_count(steps.len() as int, size) * size,
    ensures
        step_rows(packed_rows(steps, size, h), size, packed_origins(steps, size), n)
            == genuine_rows(
            steps,
            h,
            if n < steps.len() {
                n
            } else {
                steps.len() as int
            },
        ),
    decreases n,
{
    if n > 0 {
        lemma_genuine(steps, size, h, n - 1);
        let rows = packed_rows(steps, size, h);
        let count = batch_count(steps.len() as int, size);
        lemma_slot_index(count, size, n - 1);
        lemma_slot_of_packed(steps, size, (n - 1) / size, (n - 1) % size, h);
        assert(unpacked(rows, size, n - 1) == slot_witness(steps, n - 1, h));
        assert(packed_origins(steps, size)[n - 1] == origin_of(steps, n - 1));
    }
}

/// What the last slot shows of the end of execution: what the last step left.
pub(crate) proof fn lemma_terminal(
    steps: Seq<Wit>,
    size: int,
    h: spec_fn([u64; 4], [u64; 8]) -> [u64; 4],
)
    requires
        0 < size,
        ROW_WIDTH * size <= usize::MAX,
        steps.len() > 0,
    ensures
        terminal_rows(packed_rows(steps, size, h), size).len() == 1,
        value_of(terminal_rows(packed_rows(steps, size, h), size)[0], COL_TX_PHASE_AFTER)
            == steps.last().tx_after.phase.value(),
        value_of(terminal_rows(packed_rows(steps, size, h), size)[0], COL_CALL_SP_AFTER)
            == residue(steps.last().call_sp_after as int),
        value_of(
            terminal_rows(packed_rows(steps, size, h), size)[0],
            bit_of(COL_CURR_AFTER as int, 0) as usize,
        ) == kind_of(steps.last().curr_after).tag(),
        value_of(terminal_rows(packed_rows(steps, size, h), size)[0], COL_CURR_AFTER)
            == steps.last().curr_after.packed(),
{
    let rows = packed_rows(steps, size, h);
    let n = steps.len() as int;
    let count = batch_count(n, size);
    lemma_covered(n, size);
    assert(count > 0) by (nonlinear_arith)
        requires
            0 < n <= count * size,
            0 < size,
    ;
    let index = count * size - 1;
    lemma_slot_index(count, size, index);
    lemma_slot_of_packed(steps, size, index / size, index % size, h);
    let w = if index < n {
        steps[index]
    } else {
        steps.last().padding()
    };
    assert(slot_witness(steps, index, h) == witness_row(w, h));
    assert(terminal_rows(rows, size) =~= seq![witness_row(w, h)]);
    lemma_end_shown(w, h);
}

/// What a row shows of the end of execution.
proof fn lemma_end_shown(w: Wit, h: spec_fn([u64; 4], [u64; 8]) -> [u64; 4])
    ensures
        value_of(witness_row(w, h), COL_TX_PHASE_AFTER) == w.tx_after.phase.value(),
        value_of(witness_row(w, h), COL_CALL_SP_AFTER) == residue(w.call_sp_after as int),
        value_of(witness_row(w, h), bit_of(COL_CURR_AFTER as int, 0) as usize) == kind_of(
            w.curr_after,
        ).tag(),
        value_of(witness_row(w, h), COL_CURR_AFTER) == w.curr_after.packed(),
{
    law_rows_show_their_records(w, h);
    lemma_parity_bit(w, h);
}

/// The lowest bit of the coroutine after a step is its kind.
proof fn lemma_parity_bit(w: Wit, h: spec_fn([u64; 4], [u64; 8]) -> [u64; 4])
    ensures
        value_of(witness_row(w, h), bit_of(COL_CURR_AFTER as int, 0) as usize) == kind_of(
            w.curr_after,
        ).tag(),
{
    let z = witness_row(w, h);
    let place = bit_of(COL_CURR_AFTER as int, 0);
    lemma_bit_of(COL_CURR_AFTER as int, 0);
    lemma2_to64();
    let v = w.curr_after.packed();
    assert(z[COL_CURR_AFTER as int] == v);
    assert(z[place] == crate::range_check::bit(v, 0));
    vstd::arithmetic::div_mod::lemma_div_basics(v as int);
    vstd::arithmetic::div_mod::lemma_small_mod(z[place] as nat, crate::field::FIELD_MODULUS as nat);
}

/// A row of a witness record meets the relation exactly where the step is acceptable.
proof fn lemma_row_exact(w: Wit, h: spec_fn([u64; 4], [u64; 8]) -> [u64; 4])
    ensures
        satisfied(relation_rows(), witness_row(w, h), h) <==> acceptable(w, h),
{
    law_rows_show_their_records(w, h);
    law_rows_are_exact(w, h);
}

/// The relation holds of the slots exactly where every step is acceptable.
proof fn lemma_slots_satisfied(
    steps: Seq<Wit>,
    size: int,
    h: spec_fn([u64; 4], [u64; 8]) -> [u64; 4],
)
    requires
        0 < size,
        ROW_WIDTH * size <= usize::MAX,
        steps.len() > 0,
        residue(steps.last().call_sp_after as int) == 0,
    ensures
        (forall|i: int|
            0 <= i < slot_rows(steps, size, h).len() ==> satisfied(
                relation_rows(),
                #[trigger] slot_rows(steps, size, h)[i],
                h,
            )) <==> (forall|i: int| 0 <= i < steps.len() ==> #[trigger] acceptable(steps[i], h)),
{
    let n = steps.len() as int;
    let slots = slot_rows(steps, size, h);
    lemma_covered(n, size);
    lemma_slots(steps, size, h);
    assert forall|i: int| 0 <= i < n implies (satisfied(relation_rows(), #[trigger] slots[i], h)
        <==> acceptable(steps[i], h)) by {
        lemma_row_exact(steps[i], h);
    }
    if forall|i: int| 0 <= i < n ==> #[trigger] acceptable(steps[i], h) {
        assert(acceptable(steps[n - 1], h));
        lemma_padding_acceptable(steps.last(), h);
        lemma_row_exact(steps.last().padding(), h);
        assert forall|i: int| 0 <= i < slots.len() implies satisfied(
            relation_rows(),
            #[trigger] slots[i],
            h,
        ) by {
            if i < n {
                assert(acceptable(steps[i], h));
            } else {
                assert(slots[i] == witness_row(steps.last().padding(), h));
            }
        }
    }
    if forall|i: int| 0 <= i < slots.len() ==> satisfied(relation_rows(), #[trigger] slots[i], h) {
        assert forall|i: int| 0 <= i < n implies #[trigger] acceptable(steps[i], h) by {
            assert(satisfied(relation_rows(), slots[i], h));
        }
    }
}

/// The slots hand their state on exactly where the steps do.
proof fn lemma_slots_continuous(
    steps: Seq<Wit>,
    size: int,
    h: spec_fn([u64; 4], [u64; 8]) -> [u64; 4],
)
    requires
        0 < size,
        ROW_WIDTH * size <= usize::MAX,
        steps.len() > 0,
    ensures
        continuous(carried(), slot_rows(steps, size, h)) <==> continuous(
            carried(),
            witness_rows(steps, h),
        ),
{
    let n = steps.len() as int;
    let slots = slot_rows(steps, size, h);
    let rows = witness_rows(steps, h);
    lemma_covered(n, size);
    lemma_slots(steps, size, h);
    assert forall|i: int| 0 <= i < n implies #[trigger] slots[i] == rows[i] by {}
    assert forall|i: int| n <= i < slots.len() implies #[trigger] slots[i] == witness_row(
        steps.last().padding(),
        h,
    ) by {}
    if continuous(carried(), slots) {
        assert forall|i: int, k: int|
            0 <= i && i + 1 < rows.len() && 0 <= k < carried().len() implies #[trigger] carries(
            carried()[k],
            rows[i],
            rows[i + 1],
        ) by {
            assert(slots[i] == rows[i] && slots[i + 1] == rows[i + 1]);
            assert(carries(carried()[k], slots[i], slots[i + 1]));
        }
    }
    if continuous(carried(), rows) {
        assert forall|i: int, k: int|
            0 <= i && i + 1 < slots.len() && 0 <= k < carried().len() implies #[trigger] carries(
            carried()[k],
            slots[i],
            slots[i + 1],
        ) by {
            if i + 1 < n {
                assert(slots[i] == rows[i] && slots[i + 1] == rows[i + 1]);
                assert(carries(carried()[k], rows[i], rows[i + 1]));
            } else {
                lemma_padding_carries(steps.last(), h, k);
            }
        }
    }
}

/// Where execution ended with an empty call stack, padding makes no difference: the slots
/// hold exactly where the steps do.
proof fn lemma_slots_hold(
    steps: Seq<Wit>,
    size: int,
    h: spec_fn([u64; 4], [u64; 8]) -> [u64; 4],
)
    requires
        0 < size,
        ROW_WIDTH * size <= usize::MAX,
        steps.len() > 0,
        residue(steps.last().call_sp_after as int) == 0,
    ensures
        rows_hold(slot_rows(steps, size, h), h) <==> {
            &&& forall|i: int| 0 <= i < steps.len() ==> #[trigger] acceptable(steps[i], h)
            &&& continuous(carried(), witness_rows(steps, h))
        },
{
    lemma_slots_satisfied(steps, size, h);
    lemma_slots_continuous(steps, size, h);
}

/// The memory of the slots is that of the steps.
proof fn lemma_slots_memory(
    steps: Seq<Wit>,
    size: int,
    words: Seq<u64>,
    h: spec_fn([u64; 4], [u64; 8]) -> [u64; 4],
)
    requires
        0 < size,
        ROW_WIDTH * size <= usize::MAX,
        steps.len() > 0,
    ensures
        memory_consistent(
            memory_layout(),
            slot_rows(steps, size, h),
            initial_stores(memory_layout(), words),
        ) <==> memory_consistent(
            memory_layout(),
            witness_rows(steps, h),
            initial_stores(memory_layout(), words),
        ),
{
    let n = steps.len() as int;
    let slots = slot_rows(steps, size, h);
    lemma_covered(n, size);
    lemma_slots(steps, size, h);
    assert forall|i: int| n <= i < slots.len() implies idle(#[trigger] slots[i]) by {
        lemma_padding_is_idle(steps.last(), h);
    }
    law_idle_rows_do_not_touch_memory(
        witness_rows(steps, h),
        slots,
        initial_stores(memory_layout(), words),
    );
}

/// The check succeeds exactly on what [`accepted`] describes, in batches of any size.
pub proof fn law_check_accepts_exactly(
    steps: Seq<Wit>,
    table: Seq<MethodHash>,
    size: usize,
    expected: Option<Map<u32, [u64; 4]>>,
    statement: Option<TransactionStatement>,
    h: spec_fn([u64; 4], [u64; 8]) -> [u64; 4],
)
    requires
        valid_batch_size(size),
    ensures
        verify_outcome(steps, table, size, expected, statement, h) is Ok <==> accepted(
            steps,
            table,
            expected,
            statement,
            h,
        ),
{
    let s = size as int;
    let rows = packed_rows(steps, s, h);
    let origins = packed_origins(steps, s);
    let words = table_words(table);
    let count = batch_count(steps.len() as int, s);
    law_check_is_exact(size, rows, origins, words, h);
    lemma_covered(steps.len() as int, s);
    if steps.len() > 0 {
        law_packed_steps_are_their_slots(steps, size, words, h);
        lemma_slots_memory(steps, s, words, h);
        lemma_terminal(steps, s, h);
        lemma_genuine(steps, s, h, count * s);
        assert(origins.len() == count * s);
        if residue(steps.last().call_sp_after as int) == 0 {
            lemma_slots_hold(steps, s, h);
        }
    } else {
        assert(count == 0) by {
            vstd::arithmetic::div_mod::lemma_small_mod((s - 1) as nat, s as nat);
            vstd::arithmetic::div_mod::lemma_basic_div(s - 1, s);
        }
    }
}

/// Whether a trace is accepted does not depend on the size of the batches.
pub proof fn law_batch_size_makes_no_difference(
    steps: Seq<Wit>,
    table: Seq<MethodHash>,
    one: usize,
    other: usize,
    expected: Option<Map<u32, [u64; 4]>>,
    statement: Option<TransactionStatement>,
    h: spec_fn([u64; 4], [u64; 8]) -> [u64; 4],
)
    requires
        valid_batch_size(one),
        valid_batch_size(other),
    ensures
        verify_outcome(steps, table, one, expected, statement, h) is Ok <==> verify_outcome(
            steps,
            table,
            other,
            expected,
            statement,
            h,
        ) is Ok,
{
    law_check_accepts_exactly(steps, table, one, expected, statement, h);
    law_check_accepts_exactly(steps, table, other, expected, statement, h);
}

} // verus!
