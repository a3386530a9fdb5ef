//! The memory of event chains agrees with a replay.

use vstd::prelude::*;

use crate::acceptance::witness_rows;
use crate::assignment::law_rows_show_their_records;
use crate::chain_laws::{lemma_block_count, lemma_chain};
use crate::commitment::{chain_in_row, event_bus, limb};
use crate::commitment_rules::{lemma_commitment_cell, plain_row};
use crate::compression::ZERO_CHAIN;
use crate::field::FIELD_MODULUS;
use crate::groups::block_count;
use crate::instance_memory::{accesses_agree, lemma_row, states_of};
use crate::ivc_state::{lemma_packed_injective, CoroutineId, TxPhase};
use crate::layout::{
    COL_EVENT_ACTIVE, COL_EVENT_OWNER_STRIDE_8, COL_IN_WORDS, COL_OUT_WORDS,
};
use crate::memory::{
    after_ports, after_rows, cell_key, held, initial_stores, instance_memories, memory_layout,
    row_agrees, value_of, write_port, Store,
};
use crate::memory_laws::{lemma_untouched_ports, lemma_written, touches};
use crate::method_table::methods_of;
use crate::step::{replay, state_after, ReplayState, Wit};
use crate::trace::Step;
use crate::witness::{flag, witness_row};

verus! {

/// The chain of a coroutine.
spec fn chain_of(state: ReplayState, id: CoroutineId) -> [u64; 4] {
    if state.chains.contains_key(id.packed()) {
        state.chains[id.packed()]
    } else {
        ZERO_CHAIN
    }
}

/// A limb of a chain.
spec fn chain_limb(chain: [u64; 4], l: int) -> u64 {
    limb(chain[l / 2], l)
}

/// The chain that a row of a record gives.
spec fn chain_left(w: Wit, h: spec_fn([u64; 4], [u64; 8]) -> [u64; 4]) -> [u64; 4] {
    chain_in_row(plain_row(w), w.opcode, h, block_count(w.opcode) as int)
}

/// The ports of the chains.
proof fn lemma_chain_ports(l: int)
    requires
        0 <= l < 8,
    ensures
        memory_layout().len() == 13,
        memory_layout()[12].ports.len() == 8,
        memory_layout()[12].ports[l] == write_port(
            COL_EVENT_ACTIVE,
            (COL_EVENT_OWNER_STRIDE_8 + l) as usize,
            (COL_OUT_WORDS + l) as usize,
            Some((COL_IN_WORDS + l) as usize),
        ),
        forall|words: Seq<u64>| #[trigger]
            initial_stores(memory_layout(), words)[12] == Map::<u128, u64>::empty(),
{
    assert(memory_layout()[12] == instance_memories()[3]);
}

/// A limb is its own representative.
proof fn lemma_limb_value(z: Seq<u64>, column: usize, value: u64, l: int)
    requires
        column < z.len(),
        z[column as int] == limb(value, l),
    ensures
        value_of(z, column) == limb(value, l),
{
    vstd::arithmetic::div_mod::lemma_small_mod(limb(value, l) as nat, FIELD_MODULUS as nat);
}

/// The columns of the chains.
proof fn lemma_chain_columns(w: Wit, h: spec_fn([u64; 4], [u64; 8]) -> [u64; 4], l: int)
    requires
        0 <= l < 8,
    ensures
        value_of(witness_row(w, h), COL_EVENT_ACTIVE) == flag(w.opcode.has_event()),
        value_of(witness_row(w, h), (COL_EVENT_OWNER_STRIDE_8 + l) as usize) == 8
            * w.event_owner.packed() + l,
        value_of(witness_row(w, h), (COL_IN_WORDS + l) as usize) == chain_limb(
            w.commitment_before,
            l,
        ),
        value_of(witness_row(w, h), (COL_OUT_WORDS + l) as usize) == chain_limb(
            chain_left(w, h),
            l,
        ),
{
    let z = witness_row(w, h);
    let bus = event_bus(plain_row(w), w.opcode, h);
    law_rows_show_their_records(w, h);
    vstd::arithmetic::div_mod::lemma_small_mod(
        (8 * w.event_owner.packed() + l) as nat,
        FIELD_MODULUS as nat,
    );
    lemma_commitment_cell(w, h, COL_IN_WORDS + l);
    lemma_commitment_cell(w, h, COL_OUT_WORDS + l);
    assert(bus.input[l / 2] == w.commitment_before[l / 2]);
    lemma_limb_value(z, (COL_IN_WORDS + l) as usize, w.commitment_before[l / 2], l);
    lemma_limb_value(z, (COL_OUT_WORDS + l) as usize, chain_left(w, h)[l / 2], l);
}

/// Cell of a limb of the chain of a coroutine.
spec fn chain_key(id: CoroutineId, l: int) -> u128 {
    cell_key(0, (8 * id.packed() + l) as u64)
}

/// Whether the chains after a step are those before it, with the one that it extends.
spec fn commits(
    w: Wit,
    h: spec_fn([u64; 4], [u64; 8]) -> [u64; 4],
    before: ReplayState,
    after: ReplayState,
) -> bool {
    &&& w.opcode.has_event() ==> w.commitment_before == chain_of(before, w.event_owner)
    &&& forall|id: CoroutineId| #[trigger]
        chain_of(after, id) == if w.opcode.has_event() && id == w.event_owner {
            chain_left(w, h)
        } else {
            chain_of(before, id)
        }
}

/// A port writes the cell of its own limb of the chain of the event's owner, and no other.
proof fn lemma_chain_cell(
    w: Wit,
    h: spec_fn([u64; 4], [u64; 8]) -> [u64; 4],
    id: CoroutineId,
    l: int,
    q: int,
)
    requires
        0 <= l < 8,
        0 <= q < 8,
    ensures
        memory_layout()[12].ports[q].key(witness_row(w, h)) == chain_key(id, l) <==> id
            == w.event_owner && l == q,
        memory_layout()[12].ports[q].active(witness_row(w, h)) <==> w.opcode.has_event(),
        memory_layout()[12].ports[q].kind is Write,
{
    lemma_chain_ports(q);
    lemma_chain_columns(w, h, q);
    lemma_packed_injective(id, w.event_owner);
    assert(8 * id.packed() + l == 8 * w.event_owner.packed() + q ==> id.packed()
        == w.event_owner.packed() && l == q);
}

/// What one step leaves in the cell of a limb of a chain.
proof fn lemma_chain_after(
    w: Wit,
    h: spec_fn([u64; 4], [u64; 8]) -> [u64; 4],
    store: Store,
    id: CoroutineId,
    l: int,
)
    requires
        0 <= l < 8,
    ensures
        held(
            after_ports(memory_layout()[12].ports, witness_row(w, h), store, 8),
            chain_key(id, l),
        ) == if w.opcode.has_event() && id == w.event_owner {
            chain_limb(chain_left(w, h), l)
        } else {
            held(store, chain_key(id, l))
        },
{
    let ports = memory_layout()[12].ports;
    let z = witness_row(w, h);
    let key = chain_key(id, l);
    lemma_chain_ports(l);
    lemma_chain_columns(w, h, l);
    lemma_chain_cell(w, h, id, l, l);
    if w.opcode.has_event() && id == w.event_owner {
        assert(!touches(ports, z, key, l + 1)) by {
            assert forall|q: int| l + 1 <= q < ports.len() implies !((#[trigger] ports[q]).active(
                z,
            ) && ports[q].kind is Write && ports[q].key(z) == key) by {
                lemma_chain_cell(w, h, id, l, q);
            }
        }
        lemma_written(ports, z, store, l);
    } else {
        assert forall|q: int| 0 <= q < 8 implies !((#[trigger] ports[q]).active(z)
            && ports[q].kind is Write && ports[q].key(z) == key) by {
            lemma_chain_cell(w, h, id, l, q);
        }
        lemma_untouched_ports(ports, z, store, key, 0, 8);
    }
}

/// The memory of chains holds those of the replay.
proof fn lemma_chains_held(
    records: Seq<Wit>,
    states: Seq<ReplayState>,
    h: spec_fn([u64; 4], [u64; 8]) -> [u64; 4],
    n: int,
    id: CoroutineId,
    l: int,
)
    requires
        states.len() == records.len() + 1,
        chain_of(states[0], id) == ZERO_CHAIN,
        forall|i: int|
            0 <= i < records.len() ==> commits(#[trigger] records[i], h, states[i], states[i + 1]),
        0 <= n <= records.len(),
        0 <= l < 8,
    ensures
        held(
            after_rows(
                memory_layout()[12].ports,
                witness_rows(records, h),
                Map::<u128, u64>::empty(),
                n,
            ),
            chain_key(id, l),
        ) == chain_limb(chain_of(states[n], id), l),
    decreases n,
{
    if n > 0 {
        let rows = witness_rows(records, h);
        let ports = memory_layout()[12].ports;
        let store = after_rows(ports, rows, Map::<u128, u64>::empty(), n - 1);
        lemma_chains_held(records, states, h, n - 1, id, l);
        assert(commits(records[n - 1], h, states[n - 1], states[n]));
        lemma_chain_ports(l);
        lemma_chain_after(records[n - 1], h, store, id, l);
        assert(after_rows(ports, rows, Map::<u128, u64>::empty(), n) == after_ports(
            ports,
            rows[n - 1],
            store,
            8,
        ));
    } else {
        assert(ZERO_CHAIN[l / 2] == 0);
        vstd::arithmetic::div_mod::lemma_small_mod(0, FIELD_MODULUS as nat);
    }
}

/// A step of a replay extends the chain of its event's owner.
proof fn lemma_commits(
    steps: Seq<Step>,
    phase: TxPhase,
    h: spec_fn([u64; 4], [u64; 8]) -> [u64; 4],
    n: int,
)
    requires
        0 <= n < steps.len(),
    ensures
        commits(
            replay(steps, phase, h)[n],
            h,
            state_after(steps, phase, h, n),
            state_after(steps, phase, h, n + 1),
        ),
{
    let table = methods_of(steps, steps.len() as int);
    let w = replay(steps, phase, h)[n];
    let before = state_after(steps, phase, h, n);
    let after = state_after(steps, phase, h, n + 1);
    lemma_block_count(steps[n]);
    lemma_chain(before, steps[n], table, h, block_count(w.opcode) as int);
    assert forall|id: CoroutineId| #[trigger]
        chain_of(after, id) == if w.opcode.has_event() && id == w.event_owner {
            chain_left(w, h)
        } else {
            chain_of(before, id)
        } by {
        lemma_packed_injective(id, w.event_owner);
    }
}

/// When one step agrees with the memory of chains.
proof fn lemma_chain_accesses(
    w: Wit,
    h: spec_fn([u64; 4], [u64; 8]) -> [u64; 4],
    store: Store,
)
    requires
        w.opcode.has_event() ==> forall|l: int|
            0 <= l < 8 ==> #[trigger] chain_limb(w.commitment_before, l) == held(
                store,
                chain_key(w.event_owner, l),
            ),
    ensures
        accesses_agree(w, h, store, 12),
{
    let ports = memory_layout()[12].ports;
    let z = witness_row(w, h);
    lemma_chain_ports(0);
    assert forall|p: int| 0 <= p < ports.len() implies (#[trigger] ports[p]).agrees(
        z,
        after_ports(ports, z, store, p),
    ) by {
        let key = chain_key(w.event_owner, p);
        lemma_chain_ports(p);
        lemma_chain_columns(w, h, p);
        lemma_chain_cell(w, h, w.event_owner, p, p);
        assert forall|q: int| 0 <= q < p implies !((#[trigger] ports[q]).active(z)
            && ports[q].kind is Write && ports[q].key(z) == key) by {
            lemma_chain_cell(w, h, w.event_owner, p, q);
        }
        lemma_untouched_ports(ports, z, store, key, 0, p);
        if w.opcode.has_event() {
            assert(chain_limb(w.commitment_before, p) == held(store, key));
        }
    }
}

/// The memory of chains agrees with a replay.
pub(crate) proof fn lemma_chain_memory_row(
    steps: Seq<Step>,
    phase: TxPhase,
    h: spec_fn([u64; 4], [u64; 8]) -> [u64; 4],
    words: Seq<u64>,
    j: int,
)
    requires
        0 <= j < steps.len(),
    ensures
        row_agrees(
            memory_layout(),
            witness_rows(replay(steps, phase, h), h),
            initial_stores(memory_layout(), words),
            j,
            12,
        ),
{
    let records = replay(steps, phase, h);
    let states = states_of(steps, phase, h);
    let w = records[j];
    let store = after_rows(
        memory_layout()[12].ports,
        witness_rows(records, h),
        Map::<u128, u64>::empty(),
        j,
    );
    lemma_chain_ports(0);
    assert(initial_stores(memory_layout(), words)[12] == Map::<u128, u64>::empty());
    assert forall|i: int| 0 <= i < records.len() implies commits(
        #[trigger] records[i],
        h,
        states[i],
        states[i + 1],
    ) by {
        lemma_commits(steps, phase, h, i);
    }
    assert(commits(w, h, states[j], states[j + 1]));
    if w.opcode.has_event() {
        assert forall|l: int| 0 <= l < 8 implies #[trigger] chain_limb(w.commitment_before, l)
            == held(store, chain_key(w.event_owner, l)) by {
            lemma_chains_held(records, states, h, j, w.event_owner, l);
        }
    }
    lemma_chain_accesses(w, h, store);
    lemma_row(records, h, words, j, 12);
}

} // verus!
