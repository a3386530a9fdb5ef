//! What the memories of methods hold, and when their accesses agree.

use vstd::prelude::*;

use crate::abi_laws::{
    lemma_first_entry, lemma_indexed, lemma_last_registration, lemma_log_columns,
    lemma_registered, lemma_registration_logged, lemma_same_index, lemma_state_counted,
    registered,
};
use crate::acceptance::witness_rows;
use crate::assignment::law_rows_show_their_records;
use crate::frame_memory::all_acceptable;
use crate::ivc_state::{CoroutineKind, TxPhase};
use crate::layout::{
    COL_ENABLED_METHOD_LOG_ADDR, COL_ENABLED_METHOD_LOG_GENERATION,
    COL_ENABLED_METHOD_LOG_ORDINAL, COL_ENABLED_METHOD_LOG_UTXO, COL_METHOD_APPEND,
    COL_METHOD_INDEX, COL_SEL_CALL_METHOD, COL_SEL_READ_ABI,
};
use crate::legality::{acceptable, kind_of};
use crate::memory::{
    after_ports, after_rows, cell_key, held, initial_stores, log_ports, memory_layout,
    method_memories, read_port, row_agrees, value_of, write_port, Store,
};
use crate::memory_laws::lemma_quiet_ports;
use crate::method_table::methods_of;
use crate::opcode::Opcode;
use crate::step::{
    first_entry, index_of, last_registration, registers, replay, state_after, LogEntry, Wit,
};
use crate::trace::Step;
use crate::witness::witness_row;

verus! {

/// Whether the method that a step looks up is offered: a call names a method of the current
/// ABI generation of the UTXO that it goes to, and enumeration the one that is due.
pub open spec fn names_an_offered_method(
    steps: Seq<Step>,
    phase: TxPhase,
    h: spec_fn([u64; 4], [u64; 8]) -> [u64; 4],
    j: int,
) -> bool {
    let state = state_after(steps, phase, h, j);
    match steps[j] {
        Step::CallMethod { resource, method, .. } => registered(
            steps,
            phase,
            h,
            state.bound_to(resource),
            j,
        ).contains(method),
        Step::ReadAbi { method } => {
            let methods = registered(steps, phase, h, state.boundary(Opcode::ReadAbi), j);
            let due = state.tx.abi_read_ordinal as int;
            due < methods.len() && methods[due] == method
        },
        _ => true,
    }
}

/// What memory `m` of the log holds of an entry.
spec fn entry_part(entry: LogEntry, m: int) -> u64 {
    if m == 5 {
        entry.owner.packed()
    } else if m == 6 {
        entry.generation as u64
    } else if m == 7 {
        entry.method_index as u64
    } else {
        entry.ordinal as u64
    }
}

/// What a record has for memory `m` of the log.
spec fn record_part(w: Wit, m: int) -> u64 {
    if m == 5 {
        w.enabled_method_log_utxo.packed()
    } else if m == 6 {
        w.enabled_method_log_generation as u64
    } else if m == 7 {
        w.method_index as u64
    } else if w.opcode.appends_method() {
        w.abi_method_count_before as u64
    } else {
        w.tx_before.abi_read_ordinal as u64
    }
}

spec fn part_column(m: int) -> usize {
    if m == 5 {
        COL_ENABLED_METHOD_LOG_UTXO
    } else if m == 6 {
        COL_ENABLED_METHOD_LOG_GENERATION
    } else if m == 7 {
        COL_METHOD_INDEX
    } else {
        COL_ENABLED_METHOD_LOG_ORDINAL
    }
}

/// Whether a step reads memory `m` of the log.
spec fn reads_log(op: Opcode, m: int) -> bool {
    op == Opcode::ReadAbi || (m < 8 && op == Opcode::CallMethod)
}

/// The ports of memory `m` of the log.
proof fn lemma_log_ports(m: int)
    requires
        5 <= m <= 8,
    ensures
        ({
            let ports = memory_layout()[m].ports;
            &&& m < 8 ==> ports.len() == 3 && ports[1] == read_port(
                COL_SEL_CALL_METHOD,
                COL_ENABLED_METHOD_LOG_ADDR,
                part_column(m),
            )
            &&& m == 8 ==> ports.len() == 2
            &&& ports[0] == write_port(
                COL_METHOD_APPEND,
                COL_ENABLED_METHOD_LOG_ADDR,
                part_column(m),
                None,
            )
            &&& ports.last() == read_port(
                COL_SEL_READ_ABI,
                COL_ENABLED_METHOD_LOG_ADDR,
                part_column(m),
            )
        }),
        memory_layout().len() > 8,
        forall|words: Seq<u64>| #[trigger]
            initial_stores(memory_layout(), words)[m] == Map::<u128, u64>::empty(),
{
    assert(memory_layout()[m] == method_memories()[m - 4]);
    if m < 8 {
        assert(memory_layout()[m].ports == log_ports(part_column(m)));
    }
}

/// The part of a log entry in a row.
proof fn lemma_part_column(w: Wit, h: spec_fn([u64; 4], [u64; 8]) -> [u64; 4], m: int)
    requires
        5 <= m <= 8,
        w.opcode.appends_method() || w.opcode == Opcode::ReadAbi || m < 8,
    ensures
        value_of(witness_row(w, h), part_column(m)) == record_part(w, m),
{
    law_rows_show_their_records(w, h);
}

/// Whether the log after a step is that before it, with one entry more where it appends.
spec fn logged(w: Wit, before: Seq<LogEntry>, after: Seq<LogEntry>) -> bool {
    &&& before.len() <= u32::MAX
    &&& if w.opcode.appends_method() {
        &&& w.enabled_method_log_address == before.len()
        &&& after.len() == before.len() + 1
        &&& after == before.push(after.last())
        &&& forall|m: int|
            5 <= m <= 8 ==> #[trigger] entry_part(after.last(), m) == record_part(w, m)
    } else {
        after == before
    }
}

/// What one step leaves in a cell of the log.
proof fn lemma_part_after(
    w: Wit,
    h: spec_fn([u64; 4], [u64; 8]) -> [u64; 4],
    store: Store,
    m: int,
    a: u32,
)
    requires
        5 <= m <= 8,
    ensures
        held(
            after_ports(
                memory_layout()[m].ports,
                witness_row(w, h),
                store,
                memory_layout()[m].ports.len() as int,
            ),
            cell_key(0, a as u64),
        ) == if w.opcode.appends_method() && w.enabled_method_log_address == a {
            record_part(w, m)
        } else {
            held(store, cell_key(0, a as u64))
        },
{
    let ports = memory_layout()[m].ports;
    let z = witness_row(w, h);
    lemma_log_ports(m);
    lemma_log_columns(w, h);
    if w.opcode.appends_method() {
        lemma_part_column(w, h, m);
    }
    reveal_with_fuel(after_ports, 4);
}

/// The memories of the log hold its entries, and nothing behind its end.
proof fn lemma_parts_held(
    records: Seq<Wit>,
    logs: Seq<Seq<LogEntry>>,
    h: spec_fn([u64; 4], [u64; 8]) -> [u64; 4],
    m: int,
    n: int,
    a: u32,
)
    requires
        logs.len() == records.len() + 1,
        logs[0].len() == 0,
        forall|i: int|
            0 <= i < records.len() ==> logged(#[trigger] records[i], logs[i], logs[i + 1]),
        5 <= m <= 8,
        0 <= n <= records.len(),
    ensures
        held(
            after_rows(
                memory_layout()[m].ports,
                witness_rows(records, h),
                Map::<u128, u64>::empty(),
                n,
            ),
            cell_key(0, a as u64),
        ) == if a < logs[n].len() {
            entry_part(logs[n][a as int], m)
        } else {
            0
        },
    decreases n,
{
    let rows = witness_rows(records, h);
    let ports = memory_layout()[m].ports;
    if n > 0 {
        let w = records[n - 1];
        let store = after_rows(ports, rows, Map::<u128, u64>::empty(), n - 1);
        lemma_parts_held(records, logs, h, m, n - 1, a);
        assert(logged(w, logs[n - 1], logs[n]));
        lemma_part_after(w, h, store, m, a);
        if w.opcode.appends_method() {
            assert(entry_part(logs[n].last(), m) == record_part(w, m));
        }
    }
}

/// When one step agrees with a memory of the log.
proof fn lemma_part_agrees(
    w: Wit,
    h: spec_fn([u64; 4], [u64; 8]) -> [u64; 4],
    store: Store,
    m: int,
)
    requires
        5 <= m <= 8,
    ensures
        ({
            let ports = memory_layout()[m].ports;
            let z = witness_row(w, h);
            (forall|p: int|
                0 <= p < ports.len() ==> (#[trigger] ports[p]).agrees(
                    z,
                    after_ports(ports, z, store, p),
                )) <==> (reads_log(w.opcode, m) ==> record_part(w, m) == held(
                store,
                cell_key(0, w.enabled_method_log_address as u64),
            ))
        }),
{
    let ports = memory_layout()[m].ports;
    let z = witness_row(w, h);
    lemma_log_ports(m);
    lemma_log_columns(w, h);
    if reads_log(w.opcode, m) {
        lemma_part_column(w, h, m);
        let p: int = if w.opcode == Opcode::ReadAbi {
            ports.len() - 1
        } else {
            1
        };
        lemma_quiet_ports(ports, z, store, p);
        assert(ports[p].agrees(z, after_ports(ports, z, store, p)) <==> record_part(w, m) == held(
            store,
            cell_key(0, w.enabled_method_log_address as u64),
        ));
    }
}

/// The logs after every number of steps.
spec fn logs_of(
    steps: Seq<Step>,
    phase: TxPhase,
    h: spec_fn([u64; 4], [u64; 8]) -> [u64; 4],
) -> Seq<Seq<LogEntry>> {
    Seq::new(steps.len() + 1, |n: int| state_after(steps, phase, h, n).log)
}

/// What one step of a replay does to the log.
proof fn lemma_logged(
    steps: Seq<Step>,
    phase: TxPhase,
    h: spec_fn([u64; 4], [u64; 8]) -> [u64; 4],
    n: int,
)
    requires
        0 <= n < steps.len() <= u32::MAX,
    ensures
        logged(
            replay(steps, phase, h)[n],
            state_after(steps, phase, h, n).log,
            state_after(steps, phase, h, n + 1).log,
        ),
{
    lemma_state_counted(steps, phase, h, n);
}

/// Whether a step finds in the log what it has for memory `m`.
spec fn part_found(w: Wit, log: Seq<LogEntry>, m: int) -> bool {
    reads_log(w.opcode, m) ==> record_part(w, m) == if w.enabled_method_log_address < log.len() {
        entry_part(log[w.enabled_method_log_address as int], m)
    } else {
        0
    }
}

/// When a row agrees with a memory of the log.
proof fn lemma_part_row(
    steps: Seq<Step>,
    phase: TxPhase,
    h: spec_fn([u64; 4], [u64; 8]) -> [u64; 4],
    words: Seq<u64>,
    m: int,
    j: int,
)
    requires
        0 <= j < steps.len() <= u32::MAX,
        5 <= m <= 8,
    ensures
        row_agrees(
            memory_layout(),
            witness_rows(replay(steps, phase, h), h),
            initial_stores(memory_layout(), words),
            j,
            m,
        ) <==> part_found(replay(steps, phase, h)[j], state_after(steps, phase, h, j).log, m),
{
    let records = replay(steps, phase, h);
    let rows = witness_rows(records, h);
    let logs = logs_of(steps, phase, h);
    let initial = initial_stores(memory_layout(), words);
    let w = records[j];
    lemma_log_ports(m);
    assert(initial[m] == Map::<u128, u64>::empty());
    let store = after_rows(memory_layout()[m].ports, rows, initial[m], j);
    assert forall|i: int| 0 <= i < records.len() implies logged(
        #[trigger] records[i],
        logs[i],
        logs[i + 1],
    ) by {
        lemma_logged(steps, phase, h, i);
    }
    lemma_parts_held(records, logs, h, m, j, w.enabled_method_log_address);
    lemma_part_agrees(w, h, store, m);
    assert(rows[j] == witness_row(w, h));
}

/// The log entry that a call of a replay selects.
proof fn lemma_called_entry(
    steps: Seq<Step>,
    phase: TxPhase,
    h: spec_fn([u64; 4], [u64; 8]) -> [u64; 4],
    j: int,
)
    requires
        0 <= j < steps.len() <= u32::MAX,
        steps[j] is CallMethod,
    ensures
        ({
            let w = replay(steps, phase, h)[j];
            let log = state_after(steps, phase, h, j).log;
            let a = w.enabled_method_log_address as int;
            &&& a <= log.len()
            &&& a < log.len() ==> registers(
                log[a],
                w.enabled_method_log_utxo,
                w.method_index,
                w.enabled_method_log_generation,
            )
            &&& a < log.len() <==> names_an_offered_method(steps, phase, h, j)
        }),
{
    let table = methods_of(steps, steps.len() as int);
    let state = state_after(steps, phase, h, j);
    let index = index_of(table, steps[j]);
    let resource = steps[j]->CallMethod_resource;
    let method = steps[j]->CallMethod_method;
    let target = state.bound_to(resource);
    let generation = state.generation_of(target);
    let methods = registered(steps, phase, h, target, j);
    lemma_state_counted(steps, phase, h, j);
    lemma_registered(steps, phase, h, target, j);
    lemma_last_registration(state.log, target, index, generation, state.log.len() as int);
    lemma_indexed(steps, j, method);
    let a = last_registration(state.log, target, index, generation, state.log.len() as int);
    if a < state.log.len() {
        let entry = state.log[a];
        assert(registers(entry, target, index, generation));
        lemma_same_index(steps, methods[entry.ordinal as int], method);
    }
    if methods.contains(method) {
        let k = choose|k: int| 0 <= k < methods.len() && methods[k] == method;
        let b = lemma_registration_logged(steps, phase, h, target, j, k);
        assert(registers(state.log[b], target, index, generation));
    }
}

/// The log entry that enumeration selects.
proof fn lemma_enumerated_entry(
    steps: Seq<Step>,
    phase: TxPhase,
    h: spec_fn([u64; 4], [u64; 8]) -> [u64; 4],
    j: int,
)
    requires
        0 <= j < steps.len() <= u32::MAX,
        steps[j] is ReadAbi,
    ensures
        ({
            let w = replay(steps, phase, h)[j];
            let log = state_after(steps, phase, h, j).log;
            let a = w.enabled_method_log_address as int;
            &&& a <= log.len()
            &&& a < log.len() ==> log[a] == (LogEntry {
                owner: w.enabled_method_log_utxo,
                method_index: w.method_index,
                generation: w.enabled_method_log_generation,
                ordinal: w.tx_before.abi_read_ordinal,
            })
            &&& a < log.len() <==> names_an_offered_method(steps, phase, h, j)
        }),
{
    let table = methods_of(steps, steps.len() as int);
    let state = state_after(steps, phase, h, j);
    let owner = state.boundary(Opcode::ReadAbi);
    let method = steps[j]->ReadAbi_method;
    let methods = registered(steps, phase, h, owner, j);
    let due = LogEntry {
        owner,
        method_index: index_of(table, steps[j]),
        generation: state.generation_of(owner),
        ordinal: state.tx.abi_read_ordinal,
    };
    lemma_state_counted(steps, phase, h, j);
    lemma_registered(steps, phase, h, owner, j);
    lemma_first_entry(state.log, due, 0);
    lemma_indexed(steps, j, method);
    let a = first_entry(state.log, due, 0);
    if a < state.log.len() {
        assert(state.log[a] == due);
        lemma_same_index(steps, methods[due.ordinal as int], method);
    }
    if due.ordinal < methods.len() && methods[due.ordinal as int] == method {
        let b = lemma_registration_logged(steps, phase, h, owner, j, due.ordinal as int);
        assert(state.log[b] == due);
    }
}

/// A step that selects a log entry selects one of a UTXO.
proof fn lemma_selected_kind(
    steps: Seq<Step>,
    phase: TxPhase,
    h: spec_fn([u64; 4], [u64; 8]) -> [u64; 4],
    j: int,
)
    requires
        0 <= j < steps.len(),
        acceptable(replay(steps, phase, h)[j], h),
        steps[j] is CallMethod || steps[j] is ReadAbi,
    ensures
        replay(steps, phase, h)[j].enabled_method_log_utxo.packed() != 0,
{
    reveal(acceptable);
    assert(steps[j] is CallMethod ==> kind_of(replay(steps, phase, h)[j].call_target)
        == CoroutineKind::Utxo);
}

/// The memories of the log agree with a row exactly where its step names a method that is
/// offered.
pub(crate) proof fn lemma_log_row(
    steps: Seq<Step>,
    phase: TxPhase,
    h: spec_fn([u64; 4], [u64; 8]) -> [u64; 4],
    words: Seq<u64>,
    j: int,
)
    requires
        0 <= j < steps.len() <= u32::MAX,
        all_acceptable(steps, phase, h),
    ensures
        ({
            let rows = witness_rows(replay(steps, phase, h), h);
            let initial = initial_stores(memory_layout(), words);
            names_an_offered_method(steps, phase, h, j) <==> {
                &&& row_agrees(memory_layout(), rows, initial, j, 5)
                &&& row_agrees(memory_layout(), rows, initial, j, 6)
                &&& row_agrees(memory_layout(), rows, initial, j, 7)
                &&& row_agrees(memory_layout(), rows, initial, j, 8)
            }
        }),
{
    let w = replay(steps, phase, h)[j];
    lemma_part_row(steps, phase, h, words, 5, j);
    lemma_part_row(steps, phase, h, words, 6, j);
    lemma_part_row(steps, phase, h, words, 7, j);
    lemma_part_row(steps, phase, h, words, 8, j);
    assert(acceptable(w, h));
    assert(w.opcode == Opcode::of_step(steps[j]));
    if steps[j] is CallMethod {
        lemma_called_entry(steps, phase, h, j);
        lemma_selected_kind(steps, phase, h, j);
    } else if steps[j] is ReadAbi {
        lemma_enumerated_entry(steps, phase, h, j);
        lemma_selected_kind(steps, phase, h, j);
    }
}

} // verus!
