//! Check of a whole trace.

use std::collections::BTreeMap;

use vstd::prelude::*;

use crate::batch::{
    batch_count, batches_satisfied, check_outcome, law_check_is_exact, lemma_slot_column,
    packed_origins, packed_row, packed_rows, slot_witness, valid_batch_size, Batch, PackedWitness,
};
use crate::batching::{law_batch_is_its_slots, slot_row};
use crate::compression::{compression_of, is_compression};
use crate::error::{Error, Unsatisfied};
use crate::ivc_state::TxPhase;
use crate::layout::{
    bit_column, bit_of, COL_CALL_SP_AFTER, COL_CURR_AFTER, COL_EVENT_ACTIVE, COL_EVENT_OWNER,
    COL_METHOD_HASH_VALUE, COL_ONE, COL_OUT, COL_TX_PHASE_AFTER, ROW_WIDTH,
};
use crate::memory::{
    column_value, preload_tables, row_views, table_words, value_of, MemoryPreload,
};
use crate::method_table::methods_of;
use crate::sizes::law_small_batches_are_valid;
use crate::soundness::{law_bounded_columns_are_in_range, valid_row};
use crate::statement::{check_statement, method_in_range, method_limb, root, statement_holds};
use crate::step::{normalize, normalize_with_phase, replay, NormalizedTrace, Wit};
use crate::trace::{MethodHash, Trace, TransactionStatement};
use vstd::arithmetic::power2::lemma2_to64;

verus! {

broadcast use {vstd::laws_cmp::group_laws_cmp, vstd::std_specs::btree::group_btree_axioms};

/// Final outer event roots, keyed by packed coroutine instance identity: coordinator
/// `i` is `2 * i`, UTXO `i` is `2 * i + 1`. Different instances of the same program
/// have separate chains. Contains exactly the instances that emitted events.
pub type TraceCommitments = BTreeMap<u32, [u64; 4]>;

/// The row in slot `index` of some batches.
pub open spec fn unpacked(rows: Seq<Seq<u64>>, size: int, index: int) -> Seq<u64> {
    slot_row(rows[index / size], size, index % size)
}

/// The rows of those of the first `n` slots that come from a step.
pub open spec fn step_rows(
    rows: Seq<Seq<u64>>,
    size: int,
    origins: Seq<Option<usize>>,
    n: int,
) -> Seq<Seq<u64>>
    decreases n,
{
    if n <= 0 {
        seq![]
    } else if origins[n - 1] is Some {
        step_rows(rows, size, origins, n - 1).push(unpacked(rows, size, n - 1))
    } else {
        step_rows(rows, size, origins, n - 1)
    }
}

/// The chains that the first `n` rows end with, by owner.
pub open spec fn final_chains(rows: Seq<Seq<u64>>, n: int) -> Map<u32, [u64; 4]>
    decreases n,
{
    if n <= 0 {
        Map::empty()
    } else if value_of(rows[n - 1], COL_EVENT_ACTIVE) == 0 {
        final_chains(rows, n - 1)
    } else {
        final_chains(rows, n - 1).insert(
            value_of(rows[n - 1], COL_EVENT_OWNER) as u32,
            root(rows[n - 1], COL_OUT),
        )
    }
}

/// The row in the last slot, padding or not; none without batches.
pub open spec fn terminal_rows(rows: Seq<Seq<u64>>, size: int) -> Seq<Seq<u64>> {
    if rows.len() == 0 {
        seq![]
    } else {
        seq![unpacked(rows, size, rows.len() * size - 1)]
    }
}

/// Outcome of the check that execution ended: the last row leaves an empty call stack
/// and a coordinator. Without rows the frame of the first coordinator is left.
pub open spec fn execution_outcome(rows: Seq<Seq<u64>>) -> Result<(), Error> {
    if rows.len() == 0 {
        Err(Error::Unsatisfied(Unsatisfied::TerminalCallStackNotEmpty { actual: 1 }))
    } else {
        let row = rows.last();
        if value_of(row, COL_CALL_SP_AFTER) != 0 {
            Err(
                Error::Unsatisfied(
                    Unsatisfied::TerminalCallStackNotEmpty {
                        actual: value_of(row, COL_CALL_SP_AFTER),
                    },
                ),
            )
        } else if value_of(row, bit_of(COL_CURR_AFTER as int, 0) as usize) != 0 {
            Err(
                Error::Unsatisfied(
                    Unsatisfied::TerminalCoroutineNotCoordinator {
                        actual: value_of(row, COL_CURR_AFTER),
                    },
                ),
            )
        } else {
            Ok(())
        }
    }
}

/// Outcome of the check of a replayed trace: batches, then the statement of the
/// transaction, then the trace commitments, then the terminal state.
pub open spec fn verify_outcome(
    steps: Seq<Wit>,
    table: Seq<MethodHash>,
    size: usize,
    expected: Option<Map<u32, [u64; 4]>>,
    statement: Option<TransactionStatement>,
    h: spec_fn([u64; 4], [u64; 8]) -> [u64; 4],
) -> Result<(), Error> {
    let rows = packed_rows(steps, size as int, h);
    let origins = packed_origins(steps, size as int);
    let genuine = step_rows(rows, size as int, origins, origins.len() as int);
    let terminal = terminal_rows(rows, size as int);
    if !valid_batch_size(size) {
        Err(Error::InvalidBatchSize)
    } else if check_outcome(size, rows, origins, table_words(table), h) is Err {
        check_outcome(size, rows, origins, table_words(table), h)
    } else if statement is Some && !statement_holds(genuine, statement->0) {
        Err(Error::Unsatisfied(Unsatisfied::TransactionStatement))
    } else if expected is Some && final_chains(genuine, genuine.len() as int) != expected->0 {
        Err(Error::Unsatisfied(Unsatisfied::TraceCommitments))
    } else if statement is None && terminal.len() > 0 && value_of(
        terminal[0],
        COL_TX_PHASE_AFTER,
    ) != 1 {
        Err(Error::Unsatisfied(Unsatisfied::TransactionStatement))
    } else {
        execution_outcome(terminal)
    }
}

/// Check that execution ended.
pub(crate) fn verify_execution_statement(rows: &Vec<Vec<u64>>) -> (result: Result<(), Error>)
    ensures
        result == execution_outcome(row_views(rows@)),
{
    let count = rows.len();
    if count == 0 {
        return Err(Error::Unsatisfied(Unsatisfied::TerminalCallStackNotEmpty { actual: 1 }));
    }
    let row = &rows[count - 1];
    assert(row_views(rows@).last() == row@);
    let actual = column_value(row, COL_CALL_SP_AFTER);
    if actual != 0 {
        return Err(Error::Unsatisfied(Unsatisfied::TerminalCallStackNotEmpty { actual }));
    }
    if column_value(row, bit_column(COL_CURR_AFTER, 0)) != 0 {
        return Err(
            Error::Unsatisfied(
                Unsatisfied::TerminalCoroutineNotCoordinator {
                    actual: column_value(row, COL_CURR_AFTER),
                },
            ),
        );
    }
    Ok(())
}

/// Copy the row in a slot out of a batch, with the constant that serves every slot.
fn unpack(row: &Vec<u64>, size: usize, slot: usize) -> (r: Vec<u64>)
    requires
        slot < size,
        ROW_WIDTH * size <= usize::MAX,
        row@.len() == ROW_WIDTH * size,
    ensures
        r@ == slot_row(row@, size as int, slot as int),
{
    let mut r: Vec<u64> = Vec::new();
    let mut c: usize = 0;
    proof {
        lemma_slot_column(size as int, slot as int, COL_ONE as int);
        assert(ROW_WIDTH * size >= ROW_WIDTH) by (nonlinear_arith)
            requires
                size >= 1,
        ;
    }
    while c < ROW_WIDTH
        invariant
            slot < size,
            ROW_WIDTH <= ROW_WIDTH * size <= usize::MAX,
            row@.len() == ROW_WIDTH * size,
            c <= ROW_WIDTH,
            r@.len() == c,
            forall|i: int|
                0 <= i < c ==> #[trigger] r@[i] == slot_row(row@, size as int, slot as int)[i],
        decreases ROW_WIDTH - c,
    {
        proof {
            lemma_slot_column(size as int, slot as int, c as int);
            assert(0 <= c * size) by (nonlinear_arith)
                requires
                    0 <= c,
                    0 <= size,
            ;
        }
        if c == COL_ONE {
            r.push(row[COL_ONE]);
        } else {
            r.push(row[c * size + slot]);
        }
        c = c + 1;
    }
    assert(r@ =~= slot_row(row@, size as int, slot as int));
    r
}

/// The rows of the slots that come from a step.
fn real_rows(packed: &PackedWitness, size: usize) -> (genuine: Vec<Vec<u64>>)
    requires
        size > 0,
        ROW_WIDTH * size <= usize::MAX,
        packed.origins@.len() == packed.rows@.len() * size,
        forall|b: int|
            0 <= b < packed.rows@.len() ==> (#[trigger] packed.rows@[b])@.len() == ROW_WIDTH * size,
    ensures
        row_views(genuine@) == step_rows(
            row_views(packed.rows@),
            size as int,
            packed.origins@,
            packed.origins@.len() as int,
        ),
{
    let ghost zs = row_views(packed.rows@);
    let mut genuine: Vec<Vec<u64>> = Vec::new();
    let mut i: usize = 0;
    assert(row_views(genuine@) =~= step_rows(zs, size as int, packed.origins@, 0));
    while i < packed.origins.len()
        invariant
            size > 0,
            ROW_WIDTH * size <= usize::MAX,
            packed.origins@.len() == packed.rows@.len() * size,
            forall|b: int|
                0 <= b < packed.rows@.len() ==> (#[trigger] packed.rows@[b])@.len() == ROW_WIDTH
                    * size,
            zs == row_views(packed.rows@),
            i <= packed.origins@.len(),
            row_views(genuine@) == step_rows(zs, size as int, packed.origins@, i as int),
        decreases packed.origins@.len() - i,
    {
        if packed.origins[i].is_some() {
            proof {
                lemma_slot_index(packed.rows@.len() as int, size as int, i as int);
            }
            let row = unpack(&packed.rows[i / size], size, i % size);
            let ghost before = row_views(genuine@);
            proof {
                assert(zs[i as int / size as int] == packed.rows@[i as int / size as int]@);
                assert(row@ =~= unpacked(zs, size as int, i as int));
            }
            genuine.push(row);
            assert(row_views(genuine@) =~= before.push(row@));
        }
        i = i + 1;
    }
    genuine
}

/// A slot belongs to one of the batches.
pub(crate) proof fn lemma_slot_index(n: int, size: int, index: int)
    requires
        size > 0,
        0 <= index < n * size,
    ensures
        0 <= index / size < n,
        0 <= index % size < size,
        index == (index / size) * size + index % size,
{
    vstd::arithmetic::div_mod::lemma_fundamental_div_mod(index, size);
    vstd::arithmetic::div_mod::lemma_mod_bound(index, size);
    let q = index / size;
    assert(0 <= q < n) by (nonlinear_arith)
        requires
            index == size * q + index % size,
            0 <= index % size < size,
            0 <= index < n * size,
            size > 0,
    ;
    assert(size * q == q * size) by (nonlinear_arith);
}

/// The row of a witness record holds the constant one.
proof fn lemma_constant(w: Wit, h: spec_fn([u64; 4], [u64; 8]) -> [u64; 4])
    ensures
        crate::witness::witness_row(w, h)[COL_ONE as int] == 1,
{
}

/// Whether the owner of an event of a row fits a key of the trace commitments.
pub open spec fn owner_in_range(z: Seq<u64>) -> bool {
    value_of(z, COL_EVENT_OWNER) <= u32::MAX
}

/// The rows of batches that pass the check meet the relation.
pub(crate) proof fn lemma_slot_is_valid(
    steps: Seq<Wit>,
    size: usize,
    words: Seq<u64>,
    h: spec_fn([u64; 4], [u64; 8]) -> [u64; 4],
    index: int,
)
    requires
        valid_batch_size(size),
        batches_satisfied(size, packed_rows(steps, size as int, h), words, h),
        0 <= index < batch_count(steps.len() as int, size as int) * size,
    ensures
        valid_row(slot_witness(steps, index, h), h),
{
    let rows = packed_rows(steps, size as int, h);
    let s = size as int;
    lemma_slot_index(batch_count(steps.len() as int, s), s, index);
    let b = index / s;
    let slot = index % s;
    let z = rows[b];
    lemma_slot_of_packed(steps, s, b, slot, h);
    vstd::arithmetic::div_mod::lemma_small_mod(1, crate::field::FIELD_MODULUS as nat);
    law_batch_is_its_slots(z, size, h);
    let row = slot_row(z, s, slot);
    assert(satisfied_row(row, h));
    assert(value_of(row, COL_ONE) == 1);
}

/// The slots of a packed row are the rows that were packed.
pub(crate) proof fn lemma_slot_of_packed(
    steps: Seq<Wit>,
    size: int,
    b: int,
    slot: int,
    h: spec_fn([u64; 4], [u64; 8]) -> [u64; 4],
)
    requires
        0 <= slot < size,
        ROW_WIDTH * size <= usize::MAX,
    ensures
        packed_row(steps, size, b, h)[COL_ONE as int] == 1,
        slot_row(packed_row(steps, size, b, h), size, slot) == slot_witness(
            steps,
            b * size + slot,
            h,
        ),
{
    let z = packed_row(steps, size, b, h);
    let row = slot_witness(steps, b * size + slot, h);
    let source = if b * size < steps.len() {
        steps[b * size]
    } else {
        steps.last().padding()
    };
    lemma_slot_column(size, 0, COL_ONE as int);
    lemma_constant(source, h);
    assert(z[COL_ONE as int] == 1);
    lemma_constant(
        if b * size + slot < steps.len() {
            steps[b * size + slot]
        } else {
            steps.last().padding()
        },
        h,
    );
    assert forall|c: int| 0 <= c < ROW_WIDTH implies #[trigger] slot_row(z, size, slot)[c]
        == row[c] by {
        lemma_slot_column(size, slot, c);
    }
    assert(slot_row(z, size, slot) =~= row);
}

/// The rows of batches that pass the check are in range.
proof fn lemma_slot_in_range(
    steps: Seq<Wit>,
    size: usize,
    words: Seq<u64>,
    h: spec_fn([u64; 4], [u64; 8]) -> [u64; 4],
    index: int,
)
    requires
        valid_batch_size(size),
        batches_satisfied(size, packed_rows(steps, size as int, h), words, h),
        0 <= index < batch_count(steps.len() as int, size as int) * size,
    ensures
        owner_in_range(unpacked(packed_rows(steps, size as int, h), size as int, index)),
        method_in_range(unpacked(packed_rows(steps, size as int, h), size as int, index)),
{
    let rows = packed_rows(steps, size as int, h);
    let s = size as int;
    lemma_slot_index(batch_count(steps.len() as int, s), s, index);
    let slot = index % s;
    let z = rows[index / s];
    let genuine = unpacked(rows, s, index);
    lemma_slot_is_valid(steps, size, words, h, index);
    lemma_slot_of_packed(steps, s, index / s, slot, h);
    let row = slot_row(z, s, slot);
    assert(valid_row(row, h));
    lemma2_to64();
    law_bounded_columns_are_in_range(row, h, COL_EVENT_OWNER as int);
    assert forall|i: int| 0 <= i < 8 implies #[trigger] method_limb(genuine, i) <= u32::MAX by {
        law_bounded_columns_are_in_range(row, h, COL_METHOD_HASH_VALUE + i);
    }
}

spec fn satisfied_row(z: Seq<u64>, h: spec_fn([u64; 4], [u64; 8]) -> [u64; 4]) -> bool {
    crate::relation::satisfied(crate::ccs::relation_rows(), z, h)
}

/// Whether rows are in range.
pub open spec fn all_in_range(rows: Seq<Seq<u64>>) -> bool {
    forall|i: int|
        0 <= i < rows.len() ==> owner_in_range(#[trigger] rows[i]) && method_in_range(rows[i])
}

/// The rows of the steps of batches that pass the check are in range.
proof fn lemma_steps_in_range(
    steps: Seq<Wit>,
    size: usize,
    words: Seq<u64>,
    h: spec_fn([u64; 4], [u64; 8]) -> [u64; 4],
    n: int,
)
    requires
        valid_batch_size(size),
        batches_satisfied(size, packed_rows(steps, size as int, h), words, h),
        0 <= n <= batch_count(steps.len() as int, size as int) * size,
    ensures
        all_in_range(
            step_rows(
                packed_rows(steps, size as int, h),
                size as int,
                packed_origins(steps, size as int),
                n,
            ),
        ),
    decreases n,
{
    if n > 0 {
        let rows = packed_rows(steps, size as int, h);
        let origins = packed_origins(steps, size as int);
        let before = step_rows(rows, size as int, origins, n - 1);
        lemma_steps_in_range(steps, size, words, h, n - 1);
        lemma_slot_in_range(steps, size, words, h, n - 1);
        if origins[n - 1] is Some {
            assert(step_rows(rows, size as int, origins, n) == before.push(
                unpacked(rows, size as int, n - 1),
            ));
        }
    }
}

/// Check that rows end with the expected chains, and no others.
fn check_commitment_statement(rows: &Vec<Vec<u64>>, expected: &TraceCommitments) -> (result: Result<
    (),
    Error,
>)
    requires
        forall|r: int| 0 <= r < rows@.len() ==> owner_in_range(#[trigger] rows@[r]@),
    ensures
        result is Ok <==> final_chains(row_views(rows@), rows@.len() as int) == expected@,
        result matches Err(e) ==> e == Error::Unsatisfied(Unsatisfied::TraceCommitments),
{
    let ghost zs = row_views(rows@);
    let mut actual: TraceCommitments = BTreeMap::new();
    let mut owners: Vec<u32> = Vec::new();
    let mut r: usize = 0;
    assert(actual@ =~= final_chains(zs, 0));
    while r < rows.len()
        invariant
            zs == row_views(rows@),
            forall|r: int| 0 <= r < rows@.len() ==> owner_in_range(#[trigger] rows@[r]@),
            r <= rows@.len(),
            actual@ == final_chains(zs, r as int),
            forall|key: u32| actual@.contains_key(key) <==> #[trigger] owners@.contains(key),
        decreases rows@.len() - r,
    {
        let row = &rows[r];
        assert(zs[r as int] == row@);
        if column_value(row, COL_EVENT_ACTIVE) != 0 {
            assert(owner_in_range(rows@[r as int]@));
            let owner = column_value(row, COL_EVENT_OWNER) as u32;
            let chain = [
                column_value(row, COL_OUT),
                column_value(row, COL_OUT + 1),
                column_value(row, COL_OUT + 2),
                column_value(row, COL_OUT + 3),
            ];
            let ghost before = owners@;
            actual.insert(owner, chain);
            owners.push(owner);
            proof {
                assert(chain =~= root(row@, COL_OUT));
                assert forall|key: u32| actual@.contains_key(key) <==> #[trigger] owners@.contains(
                    key,
                ) by {
                    if owners@.contains(key) && key != owner {
                        let i = choose|i: int| 0 <= i < owners@.len() && owners@[i] == key;
                        assert(before[i] == key);
                        assert(before.contains(key));
                    }
                    if before.contains(key) {
                        let i = choose|i: int| 0 <= i < before.len() && before[i] == key;
                        assert(owners@[i] == key);
                    }
                    if key == owner {
                        assert(owners@[owners@.len() - 1] == owner);
                    }
                }
            }
        }
        r = r + 1;
    }
    let mut i: usize = 0;
    while i < owners.len()
        invariant
            zs == row_views(rows@),
            actual@ == final_chains(zs, rows@.len() as int),
            forall|key: u32| actual@.contains_key(key) <==> #[trigger] owners@.contains(key),
            i <= owners@.len(),
            forall|j: int|
                0 <= j < i ==> expected@.contains_key(#[trigger] owners@[j])
                    && expected@[owners@[j]] == actual@[owners@[j]],
        decreases owners@.len() - i,
    {
        let owner = owners[i];
        assert(owners@.contains(owner));
        match (actual.get(&owner), expected.get(&owner)) {
            (Some(a), Some(b)) => {
                if a[0] != b[0] || a[1] != b[1] || a[2] != b[2] || a[3] != b[3] {
                    assert(actual@ != expected@);
                    return Err(Error::Unsatisfied(Unsatisfied::TraceCommitments));
                }
                assert(*a =~= *b);
            },
            _ => {
                assert(actual@ != expected@);
                return Err(Error::Unsatisfied(Unsatisfied::TraceCommitments));
            },
        }
        i = i + 1;
    }
    proof {
        assert forall|key: u32| #[trigger] actual@.contains_key(key) implies expected@.contains_key(
            key,
        ) && expected@[key] == actual@[key] by {
            assert(owners@.contains(key));
            let j = choose|j: int| 0 <= j < owners@.len() && owners@[j] == key;
            assert(expected@.contains_key(owners@[j]));
        }
    }
    if actual.len() != expected.len() {
        assert(actual@ != expected@);
        return Err(Error::Unsatisfied(Unsatisfied::TraceCommitments));
    }
    proof {
        assert forall|key: u32| actual@.dom().contains(key) implies expected@.dom().contains(
            key,
        ) by {
            assert(actual@.contains_key(key));
        }
        vstd::set_lib::lemma_subset_equality(actual@.dom(), expected@.dom());
        assert(actual@ =~= expected@);
    }
    Ok(())
}

/// The contents of an optional map of commitments.
pub open spec fn expected_chains(expected: Option<&TraceCommitments>) -> Option<
    Map<u32, [u64; 4]>,
> {
    match expected {
        Some(map) => Some(map@),
        None => None,
    }
}

/// An optional statement by value.
pub open spec fn stated(statement: Option<&TransactionStatement>) -> Option<TransactionStatement> {
    match statement {
        Some(statement) => Some(*statement),
        None => None,
    }
}

/// Check a replayed trace.
fn verify_normalized<C: Fn([u64; 4], [u64; 8]) -> [u64; 4]>(
    normalized: &NormalizedTrace,
    batch_size: usize,
    expected: Option<&TraceCommitments>,
    statement: Option<&TransactionStatement>,
    compress: &C,
) -> (result: Result<(), Error>)
    requires
        is_compression(*compress),
    ensures
        result == verify_outcome(
            normalized.steps@,
            normalized.method_table@,
            batch_size,
            expected_chains(expected),
            stated(statement),
            compression_of(*compress),
        ),
{
    let ghost h = compression_of(*compress);
    let batch = match Batch::new(batch_size) {
        Ok(batch) => batch,
        Err(error) => {
            return Err(error);
        },
    };
    let preload = preload_tables(&normalized.method_table);
    let packed = batch.pack(&normalized.steps, compress);
    let ghost rows = row_views(packed.rows@);
    let ghost size = batch_size as int;
    assert(rows.len() == packed.rows@.len());
    let checked = batch.check(&packed, &preload, compress);
    if checked.is_err() {
        return checked;
    }
    proof {
        law_check_is_exact(batch_size, rows, packed.origins@, preload.method_words@, h);
        lemma_steps_in_range(
            normalized.steps@,
            batch_size,
            preload.method_words@,
            h,
            packed.origins@.len() as int,
        );
        assert forall|b: int| 0 <= b < packed.rows@.len() implies (
        #[trigger] packed.rows@[b])@.len() == ROW_WIDTH * batch_size by {
            assert(rows[b].len() == ROW_WIDTH * batch_size);
        }
    }
    let genuine = real_rows(&packed, batch_size);
    proof {
        assert forall|r: int| 0 <= r < genuine@.len() implies owner_in_range(#[trigger] genuine@[r]@)
            && method_in_range(genuine@[r]@) by {
            assert(row_views(genuine@)[r] == genuine@[r]@);
        }
        assert(row_views(genuine@).len() == genuine@.len());
    }
    if let Some(statement) = statement {
        let bound = check_statement(&genuine, statement);
        if bound.is_err() {
            return bound;
        }
    }
    if let Some(expected) = expected {
        let bound = check_commitment_statement(&genuine, expected);
        if bound.is_err() {
            return bound;
        }
    }
    let mut terminal: Vec<Vec<u64>> = Vec::new();
    let count = packed.rows.len();
    if count > 0 {
        let last = unpack(&packed.rows[count - 1], batch_size, batch_size - 1);
        proof {
            lemma_terminal(count as int, size);
            assert(last@ =~= unpacked(rows, size, count * size - 1));
        }
        terminal.push(last);
    }
    assert(row_views(terminal@) =~= terminal_rows(rows, size));
    if statement.is_none() && count > 0 {
        assert(terminal_rows(rows, size)[0] == terminal@[0]@);
        if column_value(&terminal[0], COL_TX_PHASE_AFTER) != TxPhase::Running.value() {
            return Err(Error::Unsatisfied(Unsatisfied::TransactionStatement));
        }
    }
    verify_execution_statement(&terminal)
}

/// The last slot is the last one of the last batch.
proof fn lemma_terminal(n: int, size: int)
    requires
        n > 0,
        size > 0,
    ensures
        (n * size - 1) / size == n - 1,
        (n * size - 1) % size == size - 1,
{
    assert(n * size - 1 == (n - 1) * size + (size - 1)) by (nonlinear_arith);
    vstd::arithmetic::div_mod::lemma_fundamental_div_mod_converse(
        n * size - 1,
        size,
        n - 1,
        size - 1,
    );
}

/// Outcome of the check of a trace.
pub open spec fn trace_outcome(
    trace: Trace,
    phase: TxPhase,
    size: usize,
    expected: Option<Map<u32, [u64; 4]>>,
    statement: Option<TransactionStatement>,
    h: spec_fn([u64; 4], [u64; 8]) -> [u64; 4],
) -> Result<(), Error> {
    verify_outcome(
        replay(trace.0@, phase, h),
        methods_of(trace.0@, trace.0@.len() as int),
        size,
        expected,
        statement,
        h,
    )
}

/// Build the witness of a trace and check that it satisfies the relation, row by row.
/// A trace has fewer than 2^32 steps, so that no counter of 32 bits overflows.
pub fn verify_sat<C: Fn([u64; 4], [u64; 8]) -> [u64; 4]>(trace: &Trace, compress: &C) -> (result:
    Result<(), Error>)
    requires
        is_compression(*compress),
        trace.0@.len() <= u32::MAX,
    ensures
        result == trace_outcome(
            *trace,
            TxPhase::Running,
            1,
            None,
            None,
            compression_of(*compress),
        ),
{
    verify_sat_batched(trace, 1, compress)
}

/// Check fixed-size batches, padding the last batch with state-preserving slots.
/// Constraint errors identify an original trace step, or a separate padding batch and
/// slot. With batches larger than one, memory and continuity failures use the batched
/// error variants, whose indices refer to the batched witness.
pub fn verify_sat_batched<C: Fn([u64; 4], [u64; 8]) -> [u64; 4]>(
    trace: &Trace,
    batch_size: usize,
    compress: &C,
) -> (result: Result<(), Error>)
    requires
        is_compression(*compress),
        trace.0@.len() <= u32::MAX,
    ensures
        result == trace_outcome(
            *trace,
            TxPhase::Running,
            batch_size,
            None,
            None,
            compression_of(*compress),
        ),
{
    verify_sat_inner(trace, batch_size, None, compress)
}

/// Check the relation and the exact final map of per-instance trace commitments. The
/// expected map is supplied by the caller, not derived from the witness.
pub fn verify_sat_with_commitments<C: Fn([u64; 4], [u64; 8]) -> [u64; 4]>(
    trace: &Trace,
    batch_size: usize,
    expected: &TraceCommitments,
    compress: &C,
) -> (result: Result<(), Error>)
    requires
        is_compression(*compress),
        trace.0@.len() <= u32::MAX,
    ensures
        result == trace_outcome(
            *trace,
            TxPhase::Running,
            batch_size,
            Some(expected@),
            None,
            compression_of(*compress),
        ),
{
    verify_sat_inner(trace, batch_size, Some(expected), compress)
}

fn verify_sat_inner<C: Fn([u64; 4], [u64; 8]) -> [u64; 4]>(
    trace: &Trace,
    batch_size: usize,
    expected: Option<&TraceCommitments>,
    compress: &C,
) -> (result: Result<(), Error>)
    requires
        is_compression(*compress),
        trace.0@.len() <= u32::MAX,
    ensures
        result == trace_outcome(
            *trace,
            TxPhase::Running,
            batch_size,
            expected_chains(expected),
            None,
            compression_of(*compress),
        ),
{
    let normalized = normalize(trace, compress);
    verify_normalized(&normalized, batch_size, expected, None, compress)
}

/// Check loading, execution, finalization, the inputs and outputs of a transaction and
/// its event commitments.
pub fn verify_transaction_sat<C: Fn([u64; 4], [u64; 8]) -> [u64; 4]>(
    trace: &Trace,
    batch_size: usize,
    statement: &TransactionStatement,
    commitments: &TraceCommitments,
    compress: &C,
) -> (result: Result<(), Error>)
    requires
        is_compression(*compress),
        trace.0@.len() <= u32::MAX,
    ensures
        result == trace_outcome(
            *trace,
            TxPhase::Loading,
            batch_size,
            Some(commitments@),
            Some(*statement),
            compression_of(*compress),
        ),
{
    let normalized = normalize_with_phase(trace, TxPhase::Loading, compress);
    verify_normalized(&normalized, batch_size, Some(commitments), Some(statement), compress)
}

/// Check rows, one to a step, against the relation, memory and continuity.
pub fn check_single_rows<C: Fn([u64; 4], [u64; 8]) -> [u64; 4]>(
    rows: Vec<Vec<u64>>,
    preload: &MemoryPreload,
    compress: &C,
) -> (result: Result<(), Error>)
    requires
        is_compression(*compress),
    ensures
        result == check_outcome(
            1,
            row_views(rows@),
            Seq::new(rows@.len(), |i: int| Some(i as usize)),
            preload.method_words@,
            compression_of(*compress),
        ),
{
    proof {
        law_small_batches_are_valid(1);
    }
    let batch = match Batch::new(1) {
        Ok(batch) => batch,
        Err(error) => {
            return Err(error);
        },
    };
    let mut origins: Vec<Option<usize>> = Vec::new();
    let mut i: usize = 0;
    while i < rows.len()
        invariant
            i <= rows@.len(),
            origins@ == Seq::new(i as nat, |j: int| Some(j as usize)),
        decreases rows@.len() - i,
    {
        origins.push(Some(i));
        i = i + 1;
        assert(origins@ =~= Seq::new(i as nat, |j: int| Some(j as usize)));
    }
    batch.check(&PackedWitness { rows, origins }, preload, compress)
}

} // verus!
