//! The chain of a coroutine commits to the events that it took part in, in order.

use vstd::prelude::*;

use crate::acceptance::{accepted, genuine_rows};
use crate::assignment::law_rows_show_their_records;
use crate::commitment::{
    block_in_row, chain_in_row, event_word, joined, kind, word_in_row,
};
use crate::commitment_rules::{lemma_commitment_cell, plain_row};
use crate::compression::{extended_by, reduced4, reduced8, ZERO_CHAIN};
use crate::event_laws::lemma_reduced8;
use crate::events::{encoding, values_of, word_value, EventKind, Word};
use crate::field::residue;
use crate::groups::block_count;
use crate::ivc_state::TxPhase;
use crate::legality::acceptable;
use crate::layout::{
    COL_CALL_STACK_EXPECTED_ARG_VALUE, COL_CALL_STACK_EXPECTED_RESULT_VALUE, COL_EVENT_ACTIVE,
    COL_EVENT_OWNER, COL_METHOD_HASH_VALUE, COL_ONE, COL_OUT, COL_RESOURCE_RESOLVER_ADDR_HANDLE,
};
use crate::memory::value_of;
use crate::opcode::Opcode;
use crate::statement::root;
use crate::step::{replay, state_after, value_limbs, ReplayState, Wit};
use crate::method_table::methods_of;
use crate::trace::{
    high_half, low_half, MethodHash, StarstreamValue, Step, TransactionStatement,
};
use crate::verify::final_chains;
use crate::witness::{flag, witness_row};

verus! {

/// Whether events of a kind use a word.
spec fn uses(kind: EventKind, word: Word) -> bool {
    match word {
        Word::Constant(_) => true,
        Word::Resource => kind == EventKind::NewUtxo || kind == EventKind::CallMethod,
        Word::Method(i) => i < 8 && (kind == EventKind::RegisterMethod || kind
            == EventKind::CallMethod || kind == EventKind::EnterMethod),
        Word::Argument(i) => i < 4 && (kind == EventKind::SetStorage || kind == EventKind::NewUtxo
            || kind == EventKind::EnterConstructor || kind == EventKind::CallMethod || kind
            == EventKind::EnterMethod),
        Word::Result(i) => i < 4 && (kind == EventKind::GetStorage || kind == EventKind::Return
            || kind == EventKind::CallMethod),
    }
}

proof fn lemma_template_uses(kind: EventKind, block: int, place: int)
    requires
        0 <= block < kind.template().len(),
        0 <= place < 8,
    ensures
        uses(kind, kind.template()[block][place]),
{
}

/// Two limbs of a value stand for one of its words.
proof fn lemma_joined_limbs(row: Seq<u64>, first: int, value: StarstreamValue, i: int)
    requires
        0 <= i < 4,
        row[first] == value_limbs(value)[2 * i],
        row[first + 1] == value_limbs(value)[2 * i + 1],
    ensures
        joined(row, first) == residue(value.0[i] as int),
{
    let word = value.0[i];
    assert(row[first] == low_half(word));
    assert(row[first + 1] == high_half(word));
    assert(word == low_half(word) + 0x1_0000_0000 * high_half(word));
}

/// A word of the event of a step has the same value in the step's row.
proof fn lemma_word(s: ReplayState, step: Step, table: Seq<MethodHash>, kind: EventKind, word: Word)
    requires
        EventKind::of_step(step) == Some(kind),
        uses(kind, word),
    ensures
        word_in_row(plain_row(s.record(step, table)), word) == residue(
            word_value(word, values_of(step)) as int,
        ),
{
    let w = s.record(step, table);
    let row = plain_row(w);
    match word {
        Word::Constant(x) => {
            assert(row[COL_ONE as int] == 1);
            assert(1 * x == x);
        },
        Word::Resource => {
            assert(row[COL_RESOURCE_RESOLVER_ADDR_HANDLE as int] == w.resolver_address.1.0);
        },
        Word::Method(i) => {
            assert(row[COL_METHOD_HASH_VALUE + i] == w.method_hash->0[i as int]);
        },
        Word::Argument(i) => {
            let first = COL_CALL_STACK_EXPECTED_ARG_VALUE + 2 * i;
            assert(row[first] == w.expected_arguments->0[2 * i]);
            assert(row[first + 1] == w.expected_arguments->0[2 * i + 1]);
            lemma_joined_limbs(row, first, values_of(step).argument, i as int);
        },
        Word::Result(i) => {
            let first = COL_CALL_STACK_EXPECTED_RESULT_VALUE + 2 * i;
            assert(row[first] == w.expected_result->0[2 * i]);
            assert(row[first + 1] == w.expected_result->0[2 * i + 1]);
            lemma_joined_limbs(row, first, values_of(step).result, i as int);
        },
    }
}

/// A block of the event of a step is the one in the step's row.
proof fn lemma_block(s: ReplayState, step: Step, table: Seq<MethodHash>, b: int)
    requires
        0 <= b < encoding(step).len(),
    ensures
        reduced8(block_in_row(plain_row(s.record(step, table)), Opcode::of_step(step), b))
            == reduced8(encoding(step)[b]),
{
    let w = s.record(step, table);
    let op = Opcode::of_step(step);
    let event = EventKind::of_step(step)->0;
    assert(kind(op) == EventKind::of_step(step));
    let found = block_in_row(plain_row(w), op, b);
    let block = encoding(step)[b];
    assert forall|place: int| 0 <= place < 8 implies #[trigger] found[place] == residue(
        block[place] as int,
    ) by {
        lemma_template_uses(event, b, place);
        lemma_word(s, step, table, event, event.template()[b][place]);
        assert(event_word(op, b, place) == event.template()[b][place]);
    }
    lemma_reduced8(found, block);
}

/// The opcode of a step has as many blocks as its event.
pub(crate) proof fn lemma_block_count(step: Step)
    ensures
        block_count(Opcode::of_step(step)) == encoding(step).len(),
        Opcode::of_step(step).has_event() <==> EventKind::of_step(step) is Some,
{
}

/// The chain in the row of a step is the chain extended by the blocks of its event.
pub(crate) proof fn lemma_chain(
    s: ReplayState,
    step: Step,
    table: Seq<MethodHash>,
    h: spec_fn([u64; 4], [u64; 8]) -> [u64; 4],
    n: int,
)
    requires
        0 <= n <= encoding(step).len(),
    ensures
        chain_in_row(plain_row(s.record(step, table)), Opcode::of_step(step), h, n) == extended_by(
            h,
            s.record(step, table).commitment_before,
            encoding(step),
            n,
        ),
    decreases n,
{
    let w = s.record(step, table);
    let row = plain_row(w);
    let op = Opcode::of_step(step);
    if n > 0 {
        lemma_chain(s, step, table, h, n - 1);
        lemma_block(s, step, table, n - 1);
    } else {
        assert(chain_in_row(row, op, h, 0)@ =~= w.commitment_before@);
    }
}

/// The row of a step commits to the event that [`encoding`] gives for the step: relation
/// and replay share one encoding.
pub proof fn law_rows_commit_to_encoded_events(
    s: ReplayState,
    step: Step,
    table: Seq<MethodHash>,
    h: spec_fn([u64; 4], [u64; 8]) -> [u64; 4],
)
    ensures
        root(witness_row(s.record(step, table), h), COL_OUT) == reduced4(
            extended_by(
                h,
                s.record(step, table).commitment_before,
                encoding(step),
                encoding(step).len() as int,
            ),
        ),
{
    let w = s.record(step, table);
    let z = witness_row(w, h);
    let op = Opcode::of_step(step);
    let n = encoding(step).len() as int;
    lemma_block_count(step);
    lemma_chain(s, step, table, h, n);
    let chain = chain_in_row(plain_row(w), op, h, n);
    lemma_commitment_cell(w, h, COL_OUT as int);
    lemma_commitment_cell(w, h, COL_OUT + 1);
    lemma_commitment_cell(w, h, COL_OUT + 2);
    lemma_commitment_cell(w, h, COL_OUT + 3);
    assert(root(z, COL_OUT)@ =~= reduced4(chain)@);
}

/// A chain extended by blocks behind one another.
proof fn lemma_extended_twice(
    h: spec_fn([u64; 4], [u64; 8]) -> [u64; 4],
    chain: [u64; 4],
    a: Seq<[u64; 8]>,
    b: Seq<[u64; 8]>,
    n: int,
)
    requires
        0 <= n <= b.len(),
    ensures
        extended_by(h, chain, a + b, a.len() + n) == extended_by(
            h,
            extended_by(h, chain, a, a.len() as int),
            b,
            n,
        ),
    decreases n,
{
    if n > 0 {
        lemma_extended_twice(h, chain, a, b, n - 1);
    } else {
        lemma_extended_prefix(h, chain, a, a + b, a.len() as int);
    }
}

proof fn lemma_extended_prefix(
    h: spec_fn([u64; 4], [u64; 8]) -> [u64; 4],
    chain: [u64; 4],
    a: Seq<[u64; 8]>,
    b: Seq<[u64; 8]>,
    n: int,
)
    requires
        0 <= n <= a.len(),
        n <= b.len(),
        forall|i: int| 0 <= i < n ==> #[trigger] a[i] == b[i],
    ensures
        extended_by(h, chain, a, n) == extended_by(h, chain, b, n),
    decreases n,
{
    if n > 0 {
        lemma_extended_prefix(h, chain, a, b, n - 1);
        assert(a[n - 1] == b[n - 1]);
    }
}

/// Packed identity of the coroutine whose chain step `i` of a trace extends; none where it
/// emits no event.
pub open spec fn owner_at(
    steps: Seq<Step>,
    phase: TxPhase,
    h: spec_fn([u64; 4], [u64; 8]) -> [u64; 4],
    i: int,
) -> Option<u64> {
    let op = Opcode::of_step(steps[i]);
    if op.has_event() {
        Some(state_after(steps, phase, h, i).event_owner(op).packed())
    } else {
        None
    }
}

/// The blocks of the events of a coroutine among the first `n` steps of a trace.
pub open spec fn blocks_of(
    steps: Seq<Step>,
    phase: TxPhase,
    h: spec_fn([u64; 4], [u64; 8]) -> [u64; 4],
    owner: u64,
    n: int,
) -> Seq<[u64; 8]>
    decreases n,
{
    if n <= 0 {
        seq![]
    } else if owner_at(steps, phase, h, n - 1) == Some(owner) {
        blocks_of(steps, phase, h, owner, n - 1) + encoding(steps[n - 1])
    } else {
        blocks_of(steps, phase, h, owner, n - 1)
    }
}

/// Whether a coroutine emits an event among the first `n` steps of a trace.
pub open spec fn emits(
    steps: Seq<Step>,
    phase: TxPhase,
    h: spec_fn([u64; 4], [u64; 8]) -> [u64; 4],
    owner: u64,
    n: int,
) -> bool {
    exists|i: int| 0 <= i < n && #[trigger] owner_at(steps, phase, h, i) == Some(owner)
}

/// A replay keeps a chain for exactly the coroutines that emitted events, and each chain
/// commits to the blocks of its coroutine's events, in order, from zero.
pub proof fn law_replay_keeps_the_chains(
    steps: Seq<Step>,
    phase: TxPhase,
    h: spec_fn([u64; 4], [u64; 8]) -> [u64; 4],
    owner: u64,
    n: int,
)
    requires
        0 <= n <= steps.len(),
    ensures
        state_after(steps, phase, h, n).chains.contains_key(owner) <==> emits(
            steps,
            phase,
            h,
            owner,
            n,
        ),
        !emits(steps, phase, h, owner, n) ==> blocks_of(steps, phase, h, owner, n).len() == 0,
        emits(steps, phase, h, owner, n) ==> state_after(steps, phase, h, n).chains[owner]
            == extended_by(
            h,
            ZERO_CHAIN,
            blocks_of(steps, phase, h, owner, n),
            blocks_of(steps, phase, h, owner, n).len() as int,
        ),
    decreases n,
{
    if n > 0 {
        law_replay_keeps_the_chains(steps, phase, h, owner, n - 1);
        let s = state_after(steps, phase, h, n - 1);
        let step = steps[n - 1];
        let op = Opcode::of_step(step);
        let before = blocks_of(steps, phase, h, owner, n - 1);
        if owner_at(steps, phase, h, n - 1) == Some(owner) {
            assert(emits(steps, phase, h, owner, n));
            assert(s.event_owner(op).packed() == owner);
            lemma_extended_twice(
                h,
                ZERO_CHAIN,
                before,
                encoding(step),
                encoding(step).len() as int,
            );
        } else {
            assert(emits(steps, phase, h, owner, n) <==> emits(steps, phase, h, owner, n - 1)) by {
                if emits(steps, phase, h, owner, n) {
                    let i = choose|i: int|
                        0 <= i < n && #[trigger] owner_at(steps, phase, h, i) == Some(owner);
                    assert(i != n - 1);
                }
                if emits(steps, phase, h, owner, n - 1) {
                    let i = choose|i: int|
                        0 <= i < n - 1 && #[trigger] owner_at(steps, phase, h, i) == Some(owner);
                    assert(owner_at(steps, phase, h, i) == Some(owner));
                }
            }
        }
    } else {
        assert(!emits(steps, phase, h, owner, 0));
    }
}

/// An event of a replay belongs to the coroutine that runs before the step, and that of an
/// input or an output to its UTXO. It extends the chain of the earlier events of its owner,
/// in order, from zero; events of others do not matter.
pub proof fn law_events_extend_the_chain_of_their_owner(
    steps: Seq<Step>,
    phase: TxPhase,
    h: spec_fn([u64; 4], [u64; 8]) -> [u64; 4],
    j: int,
)
    requires
        0 <= j < steps.len(),
        Opcode::of_step(steps[j]).has_event(),
    ensures
        ({
            let w = replay(steps, phase, h)[j];
            let blocks = blocks_of(steps, phase, h, w.event_owner.packed(), j);
            &&& w.event_owner == if steps[j] is SetStorage || steps[j] is GetStorage {
                w.boundary_utxo
            } else {
                w.curr_before
            }
            &&& w.commitment_before == extended_by(h, ZERO_CHAIN, blocks, blocks.len() as int)
        }),
{
    let owner = state_after(steps, phase, h, j).event_owner(Opcode::of_step(steps[j])).packed();
    law_replay_keeps_the_chains(steps, phase, h, owner, j);
}

/// No step of a replay is padding, so every row of it is genuine.
pub(crate) proof fn lemma_replay_is_genuine(
    steps: Seq<Step>,
    phase: TxPhase,
    h: spec_fn([u64; 4], [u64; 8]) -> [u64; 4],
    n: int,
)
    requires
        0 <= n <= steps.len(),
    ensures
        genuine_rows(replay(steps, phase, h), h, n).len() == n,
        forall|i: int|
            0 <= i < n ==> #[trigger] genuine_rows(replay(steps, phase, h), h, n)[i]
                == witness_row(replay(steps, phase, h)[i], h),
    decreases n,
{
    if n > 0 {
        lemma_replay_is_genuine(steps, phase, h, n - 1);
        let w = replay(steps, phase, h)[n - 1];
        assert(w.opcode == Opcode::of_step(steps[n - 1]));
        assert(w.opcode != Opcode::Padding);
    }
}

/// The chain columns of a row of a replay.
proof fn lemma_replayed_row(
    steps: Seq<Step>,
    phase: TxPhase,
    h: spec_fn([u64; 4], [u64; 8]) -> [u64; 4],
    i: int,
)
    requires
        0 <= i < steps.len(),
    ensures
        value_of(witness_row(replay(steps, phase, h)[i], h), COL_EVENT_ACTIVE) == flag(
            owner_at(steps, phase, h, i) is Some,
        ),
        owner_at(steps, phase, h, i) matches Some(owner) ==> value_of(
            witness_row(replay(steps, phase, h)[i], h),
            COL_EVENT_OWNER,
        ) == owner,
        owner_at(steps, phase, h, i) matches Some(owner) ==> state_after(
            steps,
            phase,
            h,
            i + 1,
        ).chains.contains_key(owner) && root(
            witness_row(replay(steps, phase, h)[i], h),
            COL_OUT,
        ) == reduced4(state_after(steps, phase, h, i + 1).chains[owner]),
        owner_at(steps, phase, h, i) is None ==> state_after(steps, phase, h, i + 1).chains
            == state_after(steps, phase, h, i).chains,
        owner_at(steps, phase, h, i) matches Some(owner) ==> forall|k: u64|
            k != owner ==> {
                &&& #[trigger] state_after(steps, phase, h, i + 1).chains.contains_key(k)
                    == state_after(steps, phase, h, i).chains.contains_key(k)
                &&& state_after(steps, phase, h, i + 1).chains[k] == state_after(
                    steps,
                    phase,
                    h,
                    i,
                ).chains[k]
            },
{
    let s = state_after(steps, phase, h, i);
    let step = steps[i];
    let table = crate::method_table::methods_of(steps, steps.len() as int);
    let w = replay(steps, phase, h)[i];
    assert(w == s.record(step, table));
    assert(state_after(steps, phase, h, i + 1) == s.after(step, table, h));
    law_rows_show_their_records(w, h);
    law_rows_commit_to_encoded_events(s, step, table, h);
}

/// The chains that the rows of a replay end with are those of the replay.
pub(crate) proof fn lemma_final_chains(
    steps: Seq<Step>,
    phase: TxPhase,
    h: spec_fn([u64; 4], [u64; 8]) -> [u64; 4],
    rows: Seq<Seq<u64>>,
    n: int,
    k: u32,
)
    requires
        0 <= n <= steps.len(),
        rows.len() == steps.len(),
        forall|i: int|
            0 <= i < rows.len() ==> #[trigger] rows[i] == witness_row(
                replay(steps, phase, h)[i],
                h,
            ),
        forall|i: int|
            0 <= i < steps.len() ==> (#[trigger] owner_at(steps, phase, h, i) matches Some(owner)
                ==> owner <= u32::MAX),
    ensures
        final_chains(rows, n).contains_key(k) <==> state_after(
            steps,
            phase,
            h,
            n,
        ).chains.contains_key(k as u64),
        final_chains(rows, n).contains_key(k) ==> final_chains(rows, n)[k] == reduced4(
            state_after(steps, phase, h, n).chains[k as u64],
        ),
    decreases n,
{
    if n > 0 {
        lemma_final_chains(steps, phase, h, rows, n - 1, k);
        lemma_replayed_row(steps, phase, h, n - 1);
        assert(rows[n - 1] == witness_row(replay(steps, phase, h)[n - 1], h));
        match owner_at(steps, phase, h, n - 1) {
            Some(owner) => {
                assert(owner <= u32::MAX);
                if k as u64 != owner {
                    assert(state_after(steps, phase, h, n).chains.contains_key(k as u64)
                        == state_after(steps, phase, h, n - 1).chains.contains_key(k as u64));
                }
            },
            None => {},
        }
    }
}

/// The owner of an event of an accepted step fits a key of the trace commitments.
pub(crate) proof fn lemma_owner_fits(w: Wit, h: spec_fn([u64; 4], [u64; 8]) -> [u64; 4])
    requires
        acceptable(w, h),
    ensures
        w.event_owner.packed() <= u32::MAX,
{
    reveal(acceptable);
    let z = witness_row(w, h);
    vstd::arithmetic::power2::lemma2_to64();
    assert(z[COL_EVENT_OWNER as int] == w.event_owner.packed());
}

/// The trace commitments of an accepted trace hold exactly the coroutines that emitted
/// events, each with the chain of the blocks of its events, in order, from zero.
pub proof fn law_trace_commitments_are_event_chains(
    steps: Seq<Step>,
    phase: TxPhase,
    expected: Option<Map<u32, [u64; 4]>>,
    statement: Option<TransactionStatement>,
    h: spec_fn([u64; 4], [u64; 8]) -> [u64; 4],
    k: u32,
)
    requires
        accepted(
            replay(steps, phase, h),
            methods_of(steps, steps.len() as int),
            expected,
            statement,
            h,
        ),
    ensures
        ({
            let rows = genuine_rows(replay(steps, phase, h), h, steps.len() as int);
            let chains = final_chains(rows, rows.len() as int);
            let blocks = blocks_of(steps, phase, h, k as u64, steps.len() as int);
            &&& chains.contains_key(k) <==> emits(steps, phase, h, k as u64, steps.len() as int)
            &&& chains.contains_key(k) ==> chains[k] == reduced4(
                extended_by(h, ZERO_CHAIN, blocks, blocks.len() as int),
            )
        }),
{
    let n = steps.len() as int;
    let records = replay(steps, phase, h);
    let rows = genuine_rows(records, h, n);
    lemma_replay_is_genuine(steps, phase, h, n);
    assert forall|i: int| 0 <= i < n implies (#[trigger] owner_at(steps, phase, h, i) matches Some(
        owner,
    ) ==> owner <= u32::MAX) by {
        assert(acceptable(records[i], h));
        lemma_owner_fits(records[i], h);
    }
    lemma_final_chains(steps, phase, h, rows, n, k);
    law_replay_keeps_the_chains(steps, phase, h, k as u64, n);
}

/// Loading of methods, enumeration and the phases of the output scan emit no event.
pub proof fn law_boundary_steps_emit_nothing(step: Step)
    requires
        step is PreloadMethod || step is ReadAbi || step is SkipConsumed || step
            is FinishTransaction,
    ensures
        encoding(step) == Seq::<[u64; 8]>::empty(),
{
}

/// A block of an event holds words of at most one root.
pub proof fn law_blocks_hold_at_most_one_root(kind: EventKind, block: int, i: int, j: int)
    requires
        0 <= block < kind.template().len(),
        0 <= i < 8,
        0 <= j < 8,
    ensures
        !(kind.template()[block][i] is Argument && kind.template()[block][j] is Result),
{
}

} // verus!
