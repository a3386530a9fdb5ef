//! The memories of methods, bindings, generations, counts and chains agree with a replay.

use vstd::prelude::*;

use crate::abi_laws::lemma_indexed;
use crate::acceptance::witness_rows;
use crate::assignment::law_rows_show_their_records;
use crate::call_laws::lemma_lane_values;
use crate::field::FIELD_MODULUS;
use crate::frame_memory::all_acceptable;
use crate::ivc_state::{lemma_packed_injective, CoroutineId, TxPhase};
use crate::layout::{
    COL_ABI_GENERATION_ADDR, COL_ABI_GENERATION_AFTER, COL_ABI_GENERATION_BEFORE,
    COL_ABI_METHOD_COUNT_ADDR, COL_ABI_METHOD_COUNT_AFTER, COL_ABI_METHOD_COUNT_BEFORE,
    COL_ABI_METHOD_COUNT_READ, COL_ABI_METHOD_COUNT_WRITE, COL_METHOD_APPEND,
    COL_METHOD_HASH_VALUE, COL_METHOD_LOOKUP, COL_METHOD_TABLE_ADDR,
    COL_RESOURCE_RESOLVER_ADDR_CID, COL_RESOURCE_RESOLVER_ADDR_HANDLE, COL_RESOURCE_RESOLVER_READ,
    COL_RESOURCE_RESOLVER_VALUE, COL_RESOURCE_RESOLVER_WRITE, COL_SEL_CALL_METHOD,
    COL_SEL_READ_ABI, COL_SEL_YIELD_BEGIN,
};
use crate::legality::acceptable;
use crate::memory::{
    after_ports, after_rows, cell_key, held, initial_stores, instance_memories, memory_layout,
    method_memories, preloaded, read_port, resolver_port, row_agrees, table_words, value_of,
    write_port, MemoryPortKind, Store,
};
use crate::memory_laws::lemma_quiet_ports;
use crate::method_table::{
    law_method_table_is_sorted_set, lemma_position_found, method_of, methods_of,
};
use crate::opcode::Opcode;
use crate::step::{
    binding_key, law_bindings_have_distinct_keys, method_limbs, replay, state_after, ReplayState,
    Wit,
};
use crate::trace::{MethodHash, ResourceHandle, Step};
use crate::witness::{flag, looks_up_method, witness_row, writes_count};

verus! {

/// Whether every access of a row to a memory agrees with its contents before the row.
pub(crate) open spec fn accesses_agree(
    w: Wit,
    h: spec_fn([u64; 4], [u64; 8]) -> [u64; 4],
    store: Store,
    m: int,
) -> bool {
    let ports = memory_layout()[m].ports;
    let z = witness_row(w, h);
    forall|p: int|
        0 <= p < ports.len() ==> (#[trigger] ports[p]).agrees(z, after_ports(ports, z, store, p))
}

/// The states after every number of steps.
pub(crate) open spec fn states_of(
    steps: Seq<Step>,
    phase: TxPhase,
    h: spec_fn([u64; 4], [u64; 8]) -> [u64; 4],
) -> Seq<ReplayState> {
    Seq::new(steps.len() + 1, |n: int| state_after(steps, phase, h, n))
}

/// A row agrees with a memory where its accesses agree with what the rows before it left.
pub(crate) proof fn lemma_row(
    records: Seq<Wit>,
    h: spec_fn([u64; 4], [u64; 8]) -> [u64; 4],
    words: Seq<u64>,
    j: int,
    m: int,
)
    requires
        0 <= j < records.len(),
        0 <= m < memory_layout().len(),
        accesses_agree(
            records[j],
            h,
            after_rows(
                memory_layout()[m].ports,
                witness_rows(records, h),
                initial_stores(memory_layout(), words)[m],
                j,
            ),
            m,
        ),
    ensures
        row_agrees(
            memory_layout(),
            witness_rows(records, h),
            initial_stores(memory_layout(), words),
            j,
            m,
        ),
{
    assert(witness_rows(records, h)[j] == witness_row(records[j], h));
}

/// The ports of the method table.
proof fn lemma_table_ports(l: int)
    requires
        0 <= l < 8,
    ensures
        memory_layout().len() == 13,
        memory_layout()[4].ports.len() == 8,
        memory_layout()[4].ports[l] == read_port(
            COL_METHOD_LOOKUP,
            (COL_METHOD_TABLE_ADDR + l) as usize,
            (COL_METHOD_HASH_VALUE + l) as usize,
        ),
        forall|words: Seq<u64>| #[trigger]
            initial_stores(memory_layout(), words)[4] == preloaded(words),
{
    assert(memory_layout()[4] == method_memories()[0]);
}

/// The method table is never written.
proof fn lemma_table_stays(rows: Seq<Seq<u64>>, store: Store, n: int)
    requires
        0 <= n <= rows.len(),
    ensures
        after_rows(memory_layout()[4].ports, rows, store, n) == store,
    decreases n,
{
    if n > 0 {
        let ports = memory_layout()[4].ports;
        lemma_table_stays(rows, store, n - 1);
        lemma_table_ports(0);
        assert forall|q: int| 0 <= q < 8 implies !((#[trigger] ports[q]).active(rows[n - 1])
            && ports[q].kind is Write) by {
            lemma_table_ports(q);
        }
        lemma_quiet_ports(ports, rows[n - 1], store, 8);
    }
}

/// A step that looks up a method finds its limbs in the table.
proof fn lemma_table_accesses(
    w: Wit,
    h: spec_fn([u64; 4], [u64; 8]) -> [u64; 4],
    table: Seq<MethodHash>,
    method: MethodHash,
)
    requires
        acceptable(w, h),
        looks_up_method(w.opcode) ==> {
            &&& w.method_hash == Some(method_limbs(method))
            &&& w.method_index < table.len()
            &&& table[w.method_index as int] == method
        },
    ensures
        accesses_agree(w, h, preloaded(table_words(table)), 4),
{
    let z = witness_row(w, h);
    let ports = memory_layout()[4].ports;
    let store = preloaded(table_words(table));
    law_rows_show_their_records(w, h);
    lemma_table_ports(0);
    assert forall|p: int| 0 <= p < ports.len() implies (#[trigger] ports[p]).agrees(
        z,
        after_ports(ports, z, store, p),
    ) by {
        lemma_table_ports(p);
        lemma_lane_values(w, h, p);
        assert forall|q: int| 0 <= q < p implies !((#[trigger] ports[q]).active(z)
            && ports[q].kind is Write) by {
            lemma_table_ports(q);
        }
        lemma_quiet_ports(ports, z, store, p);
        if looks_up_method(w.opcode) {
            let k = 8 * w.method_index + p;
            assert(value_of(z, (COL_METHOD_TABLE_ADDR + p) as usize) == k);
            assert(k / 8 == w.method_index && k % 8 == p);
            assert(table_words(table)[k] == method.0[p]);
            vstd::arithmetic::div_mod::lemma_small_mod(
                method.0[p] as nat,
                FIELD_MODULUS as nat,
            );
        }
    }
}

/// The method that a step of a replay looks up has its place in the table.
proof fn lemma_looked_up(
    steps: Seq<Step>,
    phase: TxPhase,
    h: spec_fn([u64; 4], [u64; 8]) -> [u64; 4],
    j: int,
) -> (method: MethodHash)
    requires
        0 <= j < steps.len() <= u32::MAX,
    ensures
        ({
            let w = replay(steps, phase, h)[j];
            let table = methods_of(steps, steps.len() as int);
            looks_up_method(w.opcode) ==> {
                &&& w.method_hash == Some(method_limbs(method))
                &&& w.method_index < table.len()
                &&& table[w.method_index as int] == method
            }
        }),
{
    let table = methods_of(steps, steps.len() as int);
    law_method_table_is_sorted_set(steps, steps.len() as int);
    match method_of(steps[j]) {
        Some(method) => {
            lemma_indexed(steps, j, method);
            lemma_position_found(table, method, 0);
            method
        },
        None => arbitrary(),
    }
}

/// The method table agrees with a replay.
pub(crate) proof fn lemma_table_row(
    steps: Seq<Step>,
    phase: TxPhase,
    h: spec_fn([u64; 4], [u64; 8]) -> [u64; 4],
    j: int,
)
    requires
        0 <= j < steps.len() <= u32::MAX,
        all_acceptable(steps, phase, h),
    ensures
        row_agrees(
            memory_layout(),
            witness_rows(replay(steps, phase, h), h),
            initial_stores(memory_layout(), table_words(methods_of(steps, steps.len() as int))),
            j,
            4,
        ),
{
    let records = replay(steps, phase, h);
    let table = methods_of(steps, steps.len() as int);
    let words = table_words(table);
    let method = lemma_looked_up(steps, phase, h, j);
    assert(acceptable(records[j], h));
    lemma_table_ports(0);
    lemma_table_accesses(records[j], h, table, method);
    assert(initial_stores(memory_layout(), words)[4] == preloaded(words));
    lemma_table_stays(witness_rows(records, h), preloaded(words), j);
    lemma_row(records, h, words, j, 4);
}

/// Packed identity of what a handle of a coroutine is bound to; zero where it is not bound.
spec fn binding_of(state: ReplayState, id: CoroutineId, handle: ResourceHandle) -> u64 {
    let key = binding_key(id, handle);
    if state.bindings.contains_key(key) {
        state.bindings[key].packed()
    } else {
        0
    }
}

/// The ports of the bindings.
proof fn lemma_binding_ports()
    ensures
        memory_layout().len() == 13,
        memory_layout()[9].ports.len() == 2,
        memory_layout()[9].ports[0] == resolver_port(
            COL_RESOURCE_RESOLVER_WRITE,
            MemoryPortKind::Write { value_before_column: None },
        ),
        memory_layout()[9].ports[1] == resolver_port(
            COL_RESOURCE_RESOLVER_READ,
            MemoryPortKind::Read,
        ),
        forall|words: Seq<u64>| #[trigger]
            initial_stores(memory_layout(), words)[9] == Map::<u128, u64>::empty(),
{
    assert(memory_layout()[9] == instance_memories()[0]);
}

/// The columns of the bindings.
proof fn lemma_binding_columns(w: Wit, h: spec_fn([u64; 4], [u64; 8]) -> [u64; 4])
    ensures
        value_of(witness_row(w, h), COL_RESOURCE_RESOLVER_WRITE) == flag(w.resolver_write),
        value_of(witness_row(w, h), COL_RESOURCE_RESOLVER_READ) == flag(w.resolver_read),
        value_of(witness_row(w, h), COL_RESOURCE_RESOLVER_ADDR_CID)
            == w.resolver_address.0.packed(),
        value_of(witness_row(w, h), COL_RESOURCE_RESOLVER_ADDR_HANDLE) == w.resolver_address.1.0,
        value_of(witness_row(w, h), COL_RESOURCE_RESOLVER_VALUE) == w.resolver_value.packed(),
{
    law_rows_show_their_records(w, h);
}

/// Whether the bindings after a step are those before it, with the one that it makes.
spec fn binds(w: Wit, before: ReplayState, after: ReplayState) -> bool {
    &&& !(w.resolver_read && w.resolver_write)
    &&& forall|id: CoroutineId, handle: ResourceHandle| #[trigger]
        binding_of(after, id, handle) == if w.resolver_write && (id, handle)
            == w.resolver_address {
            w.resolver_value.packed()
        } else {
            binding_of(before, id, handle)
        }
}

/// What one step leaves in the cell of a binding.
proof fn lemma_binding_after(
    w: Wit,
    h: spec_fn([u64; 4], [u64; 8]) -> [u64; 4],
    store: Store,
    id: CoroutineId,
    handle: ResourceHandle,
)
    ensures
        held(
            after_ports(memory_layout()[9].ports, witness_row(w, h), store, 2),
            cell_key(id.packed(), handle.0 as u64),
        ) == if w.resolver_write && (id, handle) == w.resolver_address {
            w.resolver_value.packed()
        } else {
            held(store, cell_key(id.packed(), handle.0 as u64))
        },
{
    lemma_binding_ports();
    lemma_binding_columns(w, h);
    lemma_packed_injective(id, w.resolver_address.0);
    reveal_with_fuel(after_ports, 3);
}

/// The memory of bindings holds those of the replay.
proof fn lemma_bindings_held(
    records: Seq<Wit>,
    states: Seq<ReplayState>,
    h: spec_fn([u64; 4], [u64; 8]) -> [u64; 4],
    n: int,
    id: CoroutineId,
    handle: ResourceHandle,
)
    requires
        states.len() == records.len() + 1,
        binding_of(states[0], id, handle) == 0,
        forall|i: int|
            0 <= i < records.len() ==> binds(#[trigger] records[i], states[i], states[i + 1]),
        0 <= n <= records.len(),
    ensures
        held(
            after_rows(
                memory_layout()[9].ports,
                witness_rows(records, h),
                Map::<u128, u64>::empty(),
                n,
            ),
            cell_key(id.packed(), handle.0 as u64),
        ) == binding_of(states[n], id, handle),
    decreases n,
{
    if n > 0 {
        let rows = witness_rows(records, h);
        let ports = memory_layout()[9].ports;
        let store = after_rows(ports, rows, Map::<u128, u64>::empty(), n - 1);
        lemma_bindings_held(records, states, h, n - 1, id, handle);
        assert(binds(records[n - 1], states[n - 1], states[n]));
        lemma_binding_ports();
        lemma_binding_after(records[n - 1], h, store, id, handle);
    }
}

/// A step of a replay makes its binding.
proof fn lemma_binds(
    steps: Seq<Step>,
    phase: TxPhase,
    h: spec_fn([u64; 4], [u64; 8]) -> [u64; 4],
    n: int,
)
    requires
        0 <= n < steps.len(),
    ensures
        binds(
            replay(steps, phase, h)[n],
            state_after(steps, phase, h, n),
            state_after(steps, phase, h, n + 1),
        ),
{
    let w = replay(steps, phase, h)[n];
    let before = state_after(steps, phase, h, n);
    let after = state_after(steps, phase, h, n + 1);
    assert forall|id: CoroutineId, handle: ResourceHandle| #[trigger]
        binding_of(after, id, handle) == if w.resolver_write && (id, handle)
            == w.resolver_address {
            w.resolver_value.packed()
        } else {
            binding_of(before, id, handle)
        } by {
        law_bindings_have_distinct_keys(id, handle, w.resolver_address.0, w.resolver_address.1);
    }
}

/// A call of a replay has the target that its handle is bound to.
proof fn lemma_bound_target(
    steps: Seq<Step>,
    phase: TxPhase,
    h: spec_fn([u64; 4], [u64; 8]) -> [u64; 4],
    n: int,
)
    requires
        0 <= n < steps.len(),
        replay(steps, phase, h)[n].resolver_read,
    ensures
        ({
            let w = replay(steps, phase, h)[n];
            w.resolver_value.packed() == binding_of(
                state_after(steps, phase, h, n),
                w.resolver_address.0,
                w.resolver_address.1,
            )
        }),
{
}

/// When one step agrees with the memory of bindings.
proof fn lemma_binding_accesses(
    w: Wit,
    h: spec_fn([u64; 4], [u64; 8]) -> [u64; 4],
    store: Store,
)
    requires
        !(w.resolver_read && w.resolver_write),
        w.resolver_read ==> w.resolver_value.packed() == held(
            store,
            cell_key(w.resolver_address.0.packed(), w.resolver_address.1.0 as u64),
        ),
    ensures
        accesses_agree(w, h, store, 9),
{
    lemma_binding_ports();
    lemma_binding_columns(w, h);
    if w.resolver_read {
        lemma_quiet_ports(memory_layout()[9].ports, witness_row(w, h), store, 1);
    }
}

/// The memory of bindings agrees with a replay.
pub(crate) proof fn lemma_binding_row(
    steps: Seq<Step>,
    phase: TxPhase,
    h: spec_fn([u64; 4], [u64; 8]) -> [u64; 4],
    words: Seq<u64>,
    j: int,
)
    requires
        0 <= j < steps.len(),
    ensures
        row_agrees(
            memory_layout(),
            witness_rows(replay(steps, phase, h), h),
            initial_stores(memory_layout(), words),
            j,
            9,
        ),
{
    let records = replay(steps, phase, h);
    let states = states_of(steps, phase, h);
    let w = records[j];
    lemma_binding_ports();
    assert(initial_stores(memory_layout(), words)[9] == Map::<u128, u64>::empty());
    assert forall|i: int| 0 <= i < records.len() implies binds(
        #[trigger] records[i],
        states[i],
        states[i + 1],
    ) by {
        lemma_binds(steps, phase, h, i);
    }
    assert(binds(w, states[j], states[j + 1]));
    lemma_bindings_held(records, states, h, j, w.resolver_address.0, w.resolver_address.1);
    if w.resolver_read {
        lemma_bound_target(steps, phase, h, j);
    }
    lemma_binding_accesses(
        w,
        h,
        after_rows(
            memory_layout()[9].ports,
            witness_rows(records, h),
            Map::<u128, u64>::empty(),
            j,
        ),
    );
    lemma_row(records, h, words, j, 9);
}

/// Whether a step reads an ABI generation.
spec fn reads_generation(op: Opcode) -> bool {
    looks_up_method(op) || op == Opcode::YieldBegin
}

/// The ports of the generations.
proof fn lemma_generation_ports()
    ensures
        memory_layout().len() == 13,
        memory_layout()[10].ports.len() == 4,
        memory_layout()[10].ports[0] == read_port(
            COL_METHOD_APPEND,
            COL_ABI_GENERATION_ADDR,
            COL_ABI_GENERATION_BEFORE,
        ),
        memory_layout()[10].ports[1] == read_port(
            COL_SEL_CALL_METHOD,
            COL_ABI_GENERATION_ADDR,
            COL_ABI_GENERATION_BEFORE,
        ),
        memory_layout()[10].ports[2] == read_port(
            COL_SEL_READ_ABI,
            COL_ABI_GENERATION_ADDR,
            COL_ABI_GENERATION_BEFORE,
        ),
        memory_layout()[10].ports[3] == write_port(
            COL_SEL_YIELD_BEGIN,
            COL_ABI_GENERATION_ADDR,
            COL_ABI_GENERATION_AFTER,
            Some(COL_ABI_GENERATION_BEFORE),
        ),
        forall|words: Seq<u64>| #[trigger]
            initial_stores(memory_layout(), words)[10] == Map::<u128, u64>::empty(),
{
    assert(memory_layout()[10] == instance_memories()[1]);
}

/// The columns of the generations.
proof fn lemma_generation_columns(w: Wit, h: spec_fn([u64; 4], [u64; 8]) -> [u64; 4])
    ensures
        value_of(witness_row(w, h), COL_METHOD_APPEND) == flag(w.opcode.appends_method()),
        value_of(witness_row(w, h), COL_SEL_CALL_METHOD) == flag(w.opcode == Opcode::CallMethod),
        value_of(witness_row(w, h), COL_SEL_READ_ABI) == flag(w.opcode == Opcode::ReadAbi),
        value_of(witness_row(w, h), COL_SEL_YIELD_BEGIN) == flag(w.opcode == Opcode::YieldBegin),
        value_of(witness_row(w, h), COL_ABI_GENERATION_ADDR)
            == w.abi_generation_address.packed(),
        value_of(witness_row(w, h), COL_ABI_GENERATION_BEFORE) == w.abi_generation_before,
        value_of(witness_row(w, h), COL_ABI_GENERATION_AFTER) == w.abi_generation_after,
{
    let z = witness_row(w, h);
    law_rows_show_their_records(w, h);
    assert(value_of(z, Opcode::CallMethod.selector()) == flag(w.opcode == Opcode::CallMethod));
    assert(value_of(z, Opcode::ReadAbi.selector()) == flag(w.opcode == Opcode::ReadAbi));
    assert(value_of(z, Opcode::YieldBegin.selector()) == flag(w.opcode == Opcode::YieldBegin));
}

/// Whether the generations after a step are those before it, with the one that it starts.
spec fn regenerates(w: Wit, before: ReplayState, after: ReplayState) -> bool {
    &&& reads_generation(w.opcode) ==> w.abi_generation_before == before.generation_of(
        w.abi_generation_address,
    )
    &&& forall|id: CoroutineId| #[trigger]
        after.generation_of(id) == if w.opcode == Opcode::YieldBegin && id
            == w.abi_generation_address {
            w.abi_generation_after
        } else {
            before.generation_of(id)
        }
}

/// What one step leaves in the cell of a generation.
proof fn lemma_generation_after(
    w: Wit,
    h: spec_fn([u64; 4], [u64; 8]) -> [u64; 4],
    store: Store,
    id: CoroutineId,
)
    ensures
        held(
            after_ports(memory_layout()[10].ports, witness_row(w, h), store, 4),
            cell_key(0, id.packed()),
        ) == if w.opcode == Opcode::YieldBegin && id == w.abi_generation_address {
            w.abi_generation_after as u64
        } else {
            held(store, cell_key(0, id.packed()))
        },
{
    lemma_generation_ports();
    lemma_generation_columns(w, h);
    lemma_packed_injective(id, w.abi_generation_address);
    reveal_with_fuel(after_ports, 5);
}

/// The memory of generations holds those of the replay.
proof fn lemma_generations_held(
    records: Seq<Wit>,
    states: Seq<ReplayState>,
    h: spec_fn([u64; 4], [u64; 8]) -> [u64; 4],
    n: int,
    id: CoroutineId,
)
    requires
        states.len() == records.len() + 1,
        states[0].generation_of(id) == 0,
        forall|i: int|
            0 <= i < records.len() ==> regenerates(#[trigger] records[i], states[i], states[i + 1]),
        0 <= n <= records.len(),
    ensures
        held(
            after_rows(
                memory_layout()[10].ports,
                witness_rows(records, h),
                Map::<u128, u64>::empty(),
                n,
            ),
            cell_key(0, id.packed()),
        ) == states[n].generation_of(id),
    decreases n,
{
    if n > 0 {
        let rows = witness_rows(records, h);
        let ports = memory_layout()[10].ports;
        let store = after_rows(ports, rows, Map::<u128, u64>::empty(), n - 1);
        lemma_generations_held(records, states, h, n - 1, id);
        assert(regenerates(records[n - 1], states[n - 1], states[n]));
        lemma_generation_ports();
        lemma_generation_after(records[n - 1], h, store, id);
    }
}

/// A step of a replay reads and starts generations.
proof fn lemma_regenerates(
    steps: Seq<Step>,
    phase: TxPhase,
    h: spec_fn([u64; 4], [u64; 8]) -> [u64; 4],
    n: int,
)
    requires
        0 <= n < steps.len(),
    ensures
        regenerates(
            replay(steps, phase, h)[n],
            state_after(steps, phase, h, n),
            state_after(steps, phase, h, n + 1),
        ),
{
    let w = replay(steps, phase, h)[n];
    let before = state_after(steps, phase, h, n);
    let after = state_after(steps, phase, h, n + 1);
    assert forall|id: CoroutineId| #[trigger]
        after.generation_of(id) == if w.opcode == Opcode::YieldBegin && id
            == w.abi_generation_address {
            w.abi_generation_after
        } else {
            before.generation_of(id)
        } by {
        lemma_packed_injective(id, before.curr);
    }
}

/// When one step agrees with the memory of generations.
proof fn lemma_generation_accesses(
    w: Wit,
    h: spec_fn([u64; 4], [u64; 8]) -> [u64; 4],
    store: Store,
)
    requires
        reads_generation(w.opcode) ==> w.abi_generation_before == held(
            store,
            cell_key(0, w.abi_generation_address.packed()),
        ),
    ensures
        accesses_agree(w, h, store, 10),
{
    let ports = memory_layout()[10].ports;
    let z = witness_row(w, h);
    lemma_generation_ports();
    lemma_generation_columns(w, h);
    assert forall|p: int| 0 <= p < ports.len() implies (#[trigger] ports[p]).agrees(
        z,
        after_ports(ports, z, store, p),
    ) by {
        lemma_quiet_ports(ports, z, store, p);
    }
}

/// The memory of generations agrees with a replay.
pub(crate) proof fn lemma_generation_row(
    steps: Seq<Step>,
    phase: TxPhase,
    h: spec_fn([u64; 4], [u64; 8]) -> [u64; 4],
    words: Seq<u64>,
    j: int,
)
    requires
        0 <= j < steps.len(),
    ensures
        row_agrees(
            memory_layout(),
            witness_rows(replay(steps, phase, h), h),
            initial_stores(memory_layout(), words),
            j,
            10,
        ),
{
    let records = replay(steps, phase, h);
    let states = states_of(steps, phase, h);
    let w = records[j];
    lemma_generation_ports();
    assert(initial_stores(memory_layout(), words)[10] == Map::<u128, u64>::empty());
    assert forall|i: int| 0 <= i < records.len() implies regenerates(
        #[trigger] records[i],
        states[i],
        states[i + 1],
    ) by {
        lemma_regenerates(steps, phase, h, i);
    }
    assert(regenerates(w, states[j], states[j + 1]));
    lemma_generations_held(records, states, h, j, w.abi_generation_address);
    lemma_generation_accesses(
        w,
        h,
        after_rows(
            memory_layout()[10].ports,
            witness_rows(records, h),
            Map::<u128, u64>::empty(),
            j,
        ),
    );
    lemma_row(records, h, words, j, 10);
}

/// The coroutine whose registration count a step accesses.
spec fn counted_address(w: Wit) -> CoroutineId {
    if writes_count(w.opcode) {
        w.abi_generation_address
    } else {
        w.boundary_utxo
    }
}

/// The ports of the registration counts.
proof fn lemma_count_ports()
    ensures
        memory_layout().len() == 13,
        memory_layout()[11].ports.len() == 2,
        memory_layout()[11].ports[0] == read_port(
            COL_ABI_METHOD_COUNT_READ,
            COL_ABI_METHOD_COUNT_ADDR,
            COL_ABI_METHOD_COUNT_BEFORE,
        ),
        memory_layout()[11].ports[1] == write_port(
            COL_ABI_METHOD_COUNT_WRITE,
            COL_ABI_METHOD_COUNT_ADDR,
            COL_ABI_METHOD_COUNT_AFTER,
            Some(COL_ABI_METHOD_COUNT_BEFORE),
        ),
        forall|words: Seq<u64>| #[trigger]
            initial_stores(memory_layout(), words)[11] == Map::<u128, u64>::empty(),
{
    assert(memory_layout()[11] == instance_memories()[2]);
}

/// The columns of the registration counts.
proof fn lemma_count_columns(w: Wit, h: spec_fn([u64; 4], [u64; 8]) -> [u64; 4])
    ensures
        value_of(witness_row(w, h), COL_ABI_METHOD_COUNT_READ) == flag(w.opcode.scans_output()),
        value_of(witness_row(w, h), COL_ABI_METHOD_COUNT_WRITE) == flag(writes_count(w.opcode)),
        writes_count(w.opcode) || w.opcode.scans_output() ==> value_of(
            witness_row(w, h),
            COL_ABI_METHOD_COUNT_ADDR,
        ) == counted_address(w).packed(),
        value_of(witness_row(w, h), COL_ABI_METHOD_COUNT_BEFORE) == w.abi_method_count_before,
        value_of(witness_row(w, h), COL_ABI_METHOD_COUNT_AFTER) == w.abi_method_count_after,
{
    law_rows_show_their_records(w, h);
}

/// Whether the counts after a step are those before it, with the one that it changes.
spec fn recounts(w: Wit, before: ReplayState, after: ReplayState) -> bool {
    &&& writes_count(w.opcode) || w.opcode.scans_output() ==> w.abi_method_count_before
        == before.count_of(counted_address(w))
    &&& forall|id: CoroutineId| #[trigger]
        after.count_of(id) == if writes_count(w.opcode) && id == w.abi_generation_address {
            w.abi_method_count_after
        } else {
            before.count_of(id)
        }
}

/// What one step leaves in the cell of a count.
proof fn lemma_count_after(
    w: Wit,
    h: spec_fn([u64; 4], [u64; 8]) -> [u64; 4],
    store: Store,
    id: CoroutineId,
)
    ensures
        held(
            after_ports(memory_layout()[11].ports, witness_row(w, h), store, 2),
            cell_key(0, id.packed()),
        ) == if writes_count(w.opcode) && id == w.abi_generation_address {
            w.abi_method_count_after as u64
        } else {
            held(store, cell_key(0, id.packed()))
        },
{
    lemma_count_ports();
    lemma_count_columns(w, h);
    lemma_packed_injective(id, w.abi_generation_address);
    reveal_with_fuel(after_ports, 3);
}

/// The memory of counts holds those of the replay.
proof fn lemma_counts_held(
    records: Seq<Wit>,
    states: Seq<ReplayState>,
    h: spec_fn([u64; 4], [u64; 8]) -> [u64; 4],
    n: int,
    id: CoroutineId,
)
    requires
        states.len() == records.len() + 1,
        states[0].count_of(id) == 0,
        forall|i: int|
            0 <= i < records.len() ==> recounts(#[trigger] records[i], states[i], states[i + 1]),
        0 <= n <= records.len(),
    ensures
        held(
            after_rows(
                memory_layout()[11].ports,
                witness_rows(records, h),
                Map::<u128, u64>::empty(),
                n,
            ),
            cell_key(0, id.packed()),
        ) == states[n].count_of(id),
    decreases n,
{
    if n > 0 {
        let rows = witness_rows(records, h);
        let ports = memory_layout()[11].ports;
        let store = after_rows(ports, rows, Map::<u128, u64>::empty(), n - 1);
        lemma_counts_held(records, states, h, n - 1, id);
        assert(recounts(records[n - 1], states[n - 1], states[n]));
        lemma_count_ports();
        lemma_count_after(records[n - 1], h, store, id);
    }
}

/// A step of a replay reads and changes counts.
proof fn lemma_recounts(
    steps: Seq<Step>,
    phase: TxPhase,
    h: spec_fn([u64; 4], [u64; 8]) -> [u64; 4],
    n: int,
)
    requires
        0 <= n < steps.len(),
    ensures
        recounts(
            replay(steps, phase, h)[n],
            state_after(steps, phase, h, n),
            state_after(steps, phase, h, n + 1),
        ),
{
    let w = replay(steps, phase, h)[n];
    let before = state_after(steps, phase, h, n);
    let after = state_after(steps, phase, h, n + 1);
    assert forall|id: CoroutineId| #[trigger]
        after.count_of(id) == if writes_count(w.opcode) && id == w.abi_generation_address {
            w.abi_method_count_after
        } else {
            before.count_of(id)
        } by {
        lemma_packed_injective(id, w.abi_generation_address);
    }
}

/// When one step agrees with the memory of counts.
proof fn lemma_count_accesses(
    w: Wit,
    h: spec_fn([u64; 4], [u64; 8]) -> [u64; 4],
    store: Store,
)
    requires
        writes_count(w.opcode) || w.opcode.scans_output() ==> w.abi_method_count_before == held(
            store,
            cell_key(0, counted_address(w).packed()),
        ),
    ensures
        accesses_agree(w, h, store, 11),
{
    let ports = memory_layout()[11].ports;
    let z = witness_row(w, h);
    lemma_count_ports();
    lemma_count_columns(w, h);
    assert forall|p: int| 0 <= p < ports.len() implies (#[trigger] ports[p]).agrees(
        z,
        after_ports(ports, z, store, p),
    ) by {
        lemma_quiet_ports(ports, z, store, p);
    }
}

/// The memory of counts agrees with a replay.
pub(crate) proof fn lemma_count_row(
    steps: Seq<Step>,
    phase: TxPhase,
    h: spec_fn([u64; 4], [u64; 8]) -> [u64; 4],
    words: Seq<u64>,
    j: int,
)
    requires
        0 <= j < steps.len(),
    ensures
        row_agrees(
            memory_layout(),
            witness_rows(replay(steps, phase, h), h),
            initial_stores(memory_layout(), words),
            j,
            11,
        ),
{
    let records = replay(steps, phase, h);
    let states = states_of(steps, phase, h);
    let w = records[j];
    lemma_count_ports();
    assert(initial_stores(memory_layout(), words)[11] == Map::<u128, u64>::empty());
    assert forall|i: int| 0 <= i < records.len() implies recounts(
        #[trigger] records[i],
        states[i],
        states[i + 1],
    ) by {
        lemma_recounts(steps, phase, h, i);
    }
    assert(recounts(w, states[j], states[j + 1]));
    lemma_counts_held(records, states, h, j, counted_address(w));
    lemma_count_accesses(
        w,
        h,
        after_rows(
            memory_layout()[11].ports,
            witness_rows(records, h),
            Map::<u128, u64>::empty(),
            j,
        ),
    );
    lemma_row(records, h, words, j, 11);
}

} // verus!
