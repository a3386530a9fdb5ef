//! The methods that a UTXO offers: a call names one of them, and an export lists them all.

use vstd::prelude::*;

use crate::acceptance::{accepted, witness_rows};
use crate::assignment::law_rows_show_their_records;
use crate::ivc_state::{lemma_packed_injective, CoroutineId, CoroutineKind, TxPhase};
use crate::layout::{
    COL_ENABLED_METHOD_LOG_ADDR, COL_ENABLED_METHOD_LOG_UTXO, COL_METHOD_APPEND,
    COL_SEL_CALL_METHOD, COL_SEL_READ_ABI,
};
use crate::legality::{acceptable, kind_of};
use crate::memory::{
    cell_key, initial_stores, log_ports, memory_consistent, memory_layout, method_memories,
    read_port, table_words, value_of, write_port,
};
use crate::memory_laws::{law_reads_of_fresh_cells_give_the_initial_value, touches};
use crate::method_table::{
    law_method_table_is_sorted_set, lemma_position_found, method_of, methods_of, position_from,
};
use crate::opcode::Opcode;
use crate::step::{
    first_entry, index_of, last_registration, lemma_counted, registers, replay, state_after,
    LogEntry, Wit,
};
use crate::trace::{MethodHash, ResourceHandle, Step, TransactionStatement};
use crate::witness::{flag, witness_row};

verus! {

/// The methods of a coroutine's current ABI generation, after the first `n` steps: those
/// loaded or registered since it last began to yield, in order, duplicates included.
pub open spec fn registered(
    steps: Seq<Step>,
    phase: TxPhase,
    h: spec_fn([u64; 4], [u64; 8]) -> [u64; 4],
    owner: CoroutineId,
    n: int,
) -> Seq<MethodHash>
    decreases n,
{
    if n <= 0 {
        seq![]
    } else {
        let before = registered(steps, phase, h, owner, n - 1);
        let state = state_after(steps, phase, h, n - 1);
        match steps[n - 1] {
            Step::PreloadMethod { method } => if state.boundary(Opcode::PreloadMethod) == owner {
                before.push(method)
            } else {
                before
            },
            Step::RegisterMethod { method } => if state.curr == owner {
                before.push(method)
            } else {
                before
            },
            Step::YieldBegin => if state.curr == owner {
                seq![]
            } else {
                before
            },
            _ => before,
        }
    }
}

/// A method that a trace names has its place in the table.
pub(crate) proof fn lemma_indexed(steps: Seq<Step>, i: int, method: MethodHash)
    requires
        0 <= i < steps.len() <= u32::MAX,
        method_of(steps[i]) == Some(method),
    ensures
        methods_of(steps, steps.len() as int).contains(method),
{
    law_method_table_is_sorted_set(steps, steps.len() as int);
    assert(method_of(steps[i]) == Some(method));
}

/// Methods of the table with the same index are the same.
pub(crate) proof fn lemma_same_index(steps: Seq<Step>, a: MethodHash, b: MethodHash)
    requires
        steps.len() <= u32::MAX,
        methods_of(steps, steps.len() as int).contains(a),
        methods_of(steps, steps.len() as int).contains(b),
        position_from(methods_of(steps, steps.len() as int), a, 0) as u32 == position_from(
            methods_of(steps, steps.len() as int),
            b,
            0,
        ) as u32,
    ensures
        a == b,
{
    let table = methods_of(steps, steps.len() as int);
    law_method_table_is_sorted_set(steps, steps.len() as int);
    lemma_position_found(table, a, 0);
    lemma_position_found(table, b, 0);
}

/// The counters of a replay stay small.
pub(crate) proof fn lemma_state_counted(
    steps: Seq<Step>,
    phase: TxPhase,
    h: spec_fn([u64; 4], [u64; 8]) -> [u64; 4],
    n: int,
)
    requires
        0 <= n <= steps.len() <= u32::MAX,
    ensures
        state_after(steps, phase, h, n).counted(n),
    decreases n,
{
    if n > 0 {
        lemma_state_counted(steps, phase, h, n - 1);
        lemma_counted(
            state_after(steps, phase, h, n - 1),
            steps[n - 1],
            methods_of(steps, steps.len() as int),
            h,
            n - 1,
        );
    }
}

/// No log entry is of a generation that is still to come.
proof fn lemma_log_generations(
    steps: Seq<Step>,
    phase: TxPhase,
    h: spec_fn([u64; 4], [u64; 8]) -> [u64; 4],
    n: int,
    a: int,
)
    requires
        0 <= n <= steps.len() <= u32::MAX,
        0 <= a < state_after(steps, phase, h, n).log.len(),
    ensures
        state_after(steps, phase, h, n).log[a].generation <= state_after(
            steps,
            phase,
            h,
            n,
        ).generation_of(state_after(steps, phase, h, n).log[a].owner),
    decreases n,
{
    if n > 0 {
        let before = state_after(steps, phase, h, n - 1);
        lemma_state_counted(steps, phase, h, n - 1);
        if a < before.log.len() {
            lemma_log_generations(steps, phase, h, n - 1, a);
            lemma_packed_injective(before.log[a].owner, before.curr);
        }
    }
}

/// Registrations are counted, and are those of the log that are of the current generation,
/// in the order of their ordinals.
pub(crate) proof fn lemma_registered(
    steps: Seq<Step>,
    phase: TxPhase,
    h: spec_fn([u64; 4], [u64; 8]) -> [u64; 4],
    owner: CoroutineId,
    n: int,
)
    requires
        0 <= n <= steps.len() <= u32::MAX,
    ensures
        state_after(steps, phase, h, n).count_of(owner) == registered(
            steps,
            phase,
            h,
            owner,
            n,
        ).len(),
        forall|k: int|
            0 <= k < registered(steps, phase, h, owner, n).len() ==> methods_of(
                steps,
                steps.len() as int,
            ).contains(#[trigger] registered(steps, phase, h, owner, n)[k]),
        forall|a: int|
            0 <= a < state_after(steps, phase, h, n).log.len() ==> {
                let entry = #[trigger] state_after(steps, phase, h, n).log[a];
                entry.owner == owner && entry.generation == state_after(
                    steps,
                    phase,
                    h,
                    n,
                ).generation_of(owner) ==> entry.ordinal < registered(
                    steps,
                    phase,
                    h,
                    owner,
                    n,
                ).len() && entry.method_index == position_from(
                    methods_of(steps, steps.len() as int),
                    registered(steps, phase, h, owner, n)[entry.ordinal as int],
                    0,
                ) as u32
            },
    decreases n,
{
    if n > 0 {
        let table = methods_of(steps, steps.len() as int);
        let before = state_after(steps, phase, h, n - 1);
        let after = state_after(steps, phase, h, n);
        let old_methods = registered(steps, phase, h, owner, n - 1);
        let methods = registered(steps, phase, h, owner, n);
        let step = steps[n - 1];
        lemma_registered(steps, phase, h, owner, n - 1);
        lemma_state_counted(steps, phase, h, n - 1);
        lemma_packed_injective(owner, before.curr);
        lemma_packed_injective(owner, before.boundary(Opcode::PreloadMethod));
        if let Some(method) = method_of(step) {
            lemma_indexed(steps, n - 1, method);
        }
        assert forall|a: int| 0 <= a < after.log.len() implies {
            let entry = #[trigger] after.log[a];
            entry.owner == owner && entry.generation == after.generation_of(owner)
                ==> entry.ordinal < methods.len() && entry.method_index == position_from(
                table,
                methods[entry.ordinal as int],
                0,
            ) as u32
        } by {
            if a < before.log.len() {
                assert(after.log[a] == before.log[a]);
                lemma_log_generations(steps, phase, h, n - 1, a);
            }
        }
    }
}

/// Every registration of the current generation is in the log, under its ordinal.
pub(crate) proof fn lemma_registration_logged(
    steps: Seq<Step>,
    phase: TxPhase,
    h: spec_fn([u64; 4], [u64; 8]) -> [u64; 4],
    owner: CoroutineId,
    n: int,
    k: int,
) -> (a: int)
    requires
        0 <= n <= steps.len() <= u32::MAX,
        0 <= k < registered(steps, phase, h, owner, n).len(),
    ensures
        0 <= a < state_after(steps, phase, h, n).log.len(),
        state_after(steps, phase, h, n).log[a] == (LogEntry {
            owner,
            method_index: position_from(
                methods_of(steps, steps.len() as int),
                registered(steps, phase, h, owner, n)[k],
                0,
            ) as u32,
            generation: state_after(steps, phase, h, n).generation_of(owner),
            ordinal: k as u32,
        }),
    decreases n,
{
    let before = state_after(steps, phase, h, n - 1);
    let old_methods = registered(steps, phase, h, owner, n - 1);
    lemma_registered(steps, phase, h, owner, n - 1);
    lemma_state_counted(steps, phase, h, n - 1);
    lemma_packed_injective(owner, before.curr);
    lemma_packed_injective(owner, before.boundary(Opcode::PreloadMethod));
    if k < old_methods.len() {
        lemma_registration_logged(steps, phase, h, owner, n - 1, k)
    } else {
        before.log.len() as int
    }
}

/// The log never shrinks, and an append writes at its end.
proof fn lemma_log_grows(
    steps: Seq<Step>,
    phase: TxPhase,
    h: spec_fn([u64; 4], [u64; 8]) -> [u64; 4],
    i: int,
    j: int,
)
    requires
        0 <= i <= j <= steps.len(),
    ensures
        state_after(steps, phase, h, i).log.len() <= state_after(steps, phase, h, j).log.len(),
        i < j && Opcode::of_step(steps[i]).appends_method() ==> state_after(
            steps,
            phase,
            h,
            i,
        ).log.len() < state_after(steps, phase, h, j).log.len(),
    decreases j,
{
    if i < j {
        lemma_log_grows(steps, phase, h, i, j - 1);
    }
}

/// The ports of the memory that holds the owners of log entries.
proof fn lemma_owner_ports()
    ensures
        memory_layout().len() > 5,
        memory_layout()[5].ports.len() == 3,
        memory_layout()[5].ports[0] == write_port(
            COL_METHOD_APPEND,
            COL_ENABLED_METHOD_LOG_ADDR,
            COL_ENABLED_METHOD_LOG_UTXO,
            None,
        ),
        memory_layout()[5].ports[1] == read_port(
            COL_SEL_CALL_METHOD,
            COL_ENABLED_METHOD_LOG_ADDR,
            COL_ENABLED_METHOD_LOG_UTXO,
        ),
        memory_layout()[5].ports[2] == read_port(
            COL_SEL_READ_ABI,
            COL_ENABLED_METHOD_LOG_ADDR,
            COL_ENABLED_METHOD_LOG_UTXO,
        ),
        forall|words: Seq<u64>| #[trigger]
            initial_stores(memory_layout(), words)[5] == Map::<u128, u64>::empty(),
{
    assert(memory_layout()[5] == method_memories()[1]);
    assert(memory_layout()[5].ports == log_ports(COL_ENABLED_METHOD_LOG_UTXO));
}

/// The columns of the log of a row.
pub(crate) proof fn lemma_log_columns(w: Wit, h: spec_fn([u64; 4], [u64; 8]) -> [u64; 4])
    ensures
        value_of(witness_row(w, h), COL_METHOD_APPEND) == flag(w.opcode.appends_method()),
        value_of(witness_row(w, h), COL_SEL_CALL_METHOD) == flag(w.opcode == Opcode::CallMethod),
        value_of(witness_row(w, h), COL_SEL_READ_ABI) == flag(w.opcode == Opcode::ReadAbi),
        value_of(witness_row(w, h), COL_ENABLED_METHOD_LOG_ADDR) == w.enabled_method_log_address,
        value_of(witness_row(w, h), COL_ENABLED_METHOD_LOG_UTXO)
            == w.enabled_method_log_utxo.packed(),
{
    let z = witness_row(w, h);
    law_rows_show_their_records(w, h);
    assert(value_of(z, Opcode::CallMethod.selector()) == flag(w.opcode == Opcode::CallMethod));
    assert(value_of(z, Opcode::ReadAbi.selector()) == flag(w.opcode == Opcode::ReadAbi));
}

/// A step that does not append at an address does not write there.
proof fn lemma_unwritten(w: Wit, h: spec_fn([u64; 4], [u64; 8]) -> [u64; 4], address: u64)
    requires
        w.opcode.appends_method() ==> w.enabled_method_log_address != address,
    ensures
        !touches(memory_layout()[5].ports, witness_row(w, h), cell_key(0, address), 0),
{
    let z = witness_row(w, h);
    let ports = memory_layout()[5].ports;
    lemma_owner_ports();
    lemma_log_columns(w, h);
    assert forall|q: int| 0 <= q < ports.len() implies !((#[trigger] ports[q]).active(z)
        && ports[q].kind is Write && ports[q].key(z) == cell_key(0, address)) by {}
}

/// What a step before `j` appends lies before the end that the log has at `j`.
proof fn lemma_appends_before(
    steps: Seq<Step>,
    phase: TxPhase,
    h: spec_fn([u64; 4], [u64; 8]) -> [u64; 4],
    k: int,
    j: int,
    address: u64,
)
    requires
        0 <= k <= j < steps.len() <= u32::MAX,
        !Opcode::of_step(steps[j]).appends_method(),
        address >= state_after(steps, phase, h, j).log.len(),
    ensures
        ({
            let w = replay(steps, phase, h)[k];
            w.opcode.appends_method() ==> w.enabled_method_log_address != address
        }),
{
    lemma_log_grows(steps, phase, h, k, j);
    lemma_state_counted(steps, phase, h, k);
}

/// A step that selects a log entry that was never written finds no owner there.
proof fn lemma_unwritten_entry(
    records: Seq<Wit>,
    h: spec_fn([u64; 4], [u64; 8]) -> [u64; 4],
    words: Seq<u64>,
    j: int,
)
    requires
        memory_consistent(
            memory_layout(),
            witness_rows(records, h),
            initial_stores(memory_layout(), words),
        ),
        0 <= j < records.len(),
        records[j].opcode == Opcode::CallMethod || records[j].opcode == Opcode::ReadAbi,
        forall|k: int|
            0 <= k <= j && (#[trigger] records[k]).opcode.appends_method()
                ==> records[k].enabled_method_log_address != records[j].enabled_method_log_address,
    ensures
        records[j].enabled_method_log_utxo.packed() == 0,
{
    let rows = witness_rows(records, h);
    let stores = initial_stores(memory_layout(), words);
    let ports = memory_layout()[5].ports;
    let address = records[j].enabled_method_log_address as u64;
    let p: int = if records[j].opcode == Opcode::CallMethod {
        1
    } else {
        2
    };
    lemma_owner_ports();
    lemma_log_columns(records[j], h);
    assert(ports[p].key(rows[j]) == cell_key(0, address));
    assert forall|k: int| 0 <= k <= j implies !touches(
        ports,
        #[trigger] rows[k],
        cell_key(0, address),
        0,
    ) by {
        lemma_unwritten(records[k], h, address);
    }
    law_reads_of_fresh_cells_give_the_initial_value(memory_layout(), rows, stores, 5, j, p);
}

/// A step of an accepted trace that selects a log entry of a UTXO finds one.
proof fn lemma_entry_exists(
    steps: Seq<Step>,
    phase: TxPhase,
    expected: Option<Map<u32, [u64; 4]>>,
    statement: Option<TransactionStatement>,
    h: spec_fn([u64; 4], [u64; 8]) -> [u64; 4],
    j: int,
)
    requires
        0 <= j < steps.len() <= u32::MAX,
        accepted(
            replay(steps, phase, h),
            methods_of(steps, steps.len() as int),
            expected,
            statement,
            h,
        ),
        steps[j] is CallMethod || steps[j] is ReadAbi,
        kind_of(replay(steps, phase, h)[j].enabled_method_log_utxo) == CoroutineKind::Utxo,
    ensures
        replay(steps, phase, h)[j].enabled_method_log_address < state_after(
            steps,
            phase,
            h,
            j,
        ).log.len(),
{
    let records = replay(steps, phase, h);
    let w = records[j];
    if w.enabled_method_log_address >= state_after(steps, phase, h, j).log.len() {
        assert forall|k: int|
            0 <= k <= j && (#[trigger] records[k]).opcode.appends_method() implies records[k]
            .enabled_method_log_address != w.enabled_method_log_address by {
            lemma_appends_before(steps, phase, h, k, j, w.enabled_method_log_address as u64);
        }
        lemma_unwritten_entry(records, h, table_words(methods_of(steps, steps.len() as int)), j);
    }
}

/// The first entry that equals another one, if there is one.
pub(crate) proof fn lemma_first_entry(log: Seq<LogEntry>, entry: LogEntry, i: int)
    requires
        0 <= i <= log.len(),
    ensures
        i <= first_entry(log, entry, i) <= log.len(),
        first_entry(log, entry, i) < log.len() ==> log[first_entry(log, entry, i)] == entry,
        (exists|a: int| i <= a < log.len() && log[a] == entry) ==> first_entry(log, entry, i)
            < log.len(),
    decreases log.len() - i,
{
    if i < log.len() && log[i] != entry {
        lemma_first_entry(log, entry, i + 1);
    }
}

/// The last entry that registers a method, if there is one.
pub(crate) proof fn lemma_last_registration(
    log: Seq<LogEntry>,
    owner: CoroutineId,
    method_index: u32,
    generation: u32,
    n: int,
)
    requires
        0 <= n <= log.len(),
    ensures
        0 <= last_registration(log, owner, method_index, generation, n) <= log.len(),
        last_registration(log, owner, method_index, generation, n) < log.len() ==> registers(
            log[last_registration(log, owner, method_index, generation, n)],
            owner,
            method_index,
            generation,
        ),
        (exists|a: int|
            0 <= a < n && #[trigger] registers(log[a], owner, method_index, generation))
            ==> last_registration(log, owner, method_index, generation, n) < log.len(),
    decreases n,
{
    if n > 0 && !registers(log[n - 1], owner, method_index, generation) {
        lemma_last_registration(log, owner, method_index, generation, n - 1);
    }
}

/// An enumeration looks for the first entry of the log that is due: no entry before the
/// one that is found equals it, and none is found only where the log does not have it.
pub proof fn law_the_first_entry_is_found(log: Seq<LogEntry>, entry: LogEntry, a: int)
    requires
        0 <= a < log.len(),
        log[a] == entry,
    ensures
        first_entry(log, entry, 0) <= a,
        log[first_entry(log, entry, 0)] == entry,
{
    lemma_no_entry_before(log, entry, a, 0);
    lemma_first_entry(log, entry, 0);
}

proof fn lemma_no_entry_before(log: Seq<LogEntry>, entry: LogEntry, a: int, i: int)
    requires
        0 <= i <= a < log.len(),
        log[a] == entry,
    ensures
        first_entry(log, entry, i) <= a,
    decreases a - i,
{
    if log[i] != entry {
        lemma_no_entry_before(log, entry, a, i + 1);
    }
}

/// A call looks for the last registration of its method: no entry behind the one that is
/// found registers the method, and none is found only where the log has no registration.
pub proof fn law_the_last_registration_is_found(
    log: Seq<LogEntry>,
    owner: CoroutineId,
    method_index: u32,
    generation: u32,
    n: int,
    a: int,
)
    requires
        0 <= a < n <= log.len(),
        log[a].owner == owner,
        log[a].method_index == method_index,
        log[a].generation == generation,
    ensures
        a <= last_registration(log, owner, method_index, generation, n) < n,
        ({
            let found = log[last_registration(log, owner, method_index, generation, n)];
            found.owner == owner && found.method_index == method_index && found.generation
                == generation
        }),
    decreases n,
{
    if !registers(log[n - 1], owner, method_index, generation) {
        law_the_last_registration_is_found(log, owner, method_index, generation, n - 1, a);
    }
}

/// A call of an accepted trace goes through a binding to a UTXO, and names a method that
/// this UTXO registered in its current ABI generation.
pub proof fn law_calls_name_registered_methods(
    steps: Seq<Step>,
    phase: TxPhase,
    expected: Option<Map<u32, [u64; 4]>>,
    statement: Option<TransactionStatement>,
    h: spec_fn([u64; 4], [u64; 8]) -> [u64; 4],
    j: int,
    resource: ResourceHandle,
    method: MethodHash,
)
    requires
        0 <= j < steps.len() <= u32::MAX,
        accepted(
            replay(steps, phase, h),
            methods_of(steps, steps.len() as int),
            expected,
            statement,
            h,
        ),
        steps[j] matches Step::CallMethod { resource: r, method: m, .. } && r == resource && m
            == method,
    ensures
        state_after(steps, phase, h, j).bound_to(resource) is Utxo,
        registered(
            steps,
            phase,
            h,
            state_after(steps, phase, h, j).bound_to(resource),
            j,
        ).contains(method),
{
    let table = methods_of(steps, steps.len() as int);
    let state = state_after(steps, phase, h, j);
    let target = state.bound_to(resource);
    let w = replay(steps, phase, h)[j];
    let methods = registered(steps, phase, h, target, j);
    assert(acceptable(w, h));
    assert(kind_of(w.call_target) == CoroutineKind::Utxo) by {
        reveal(acceptable);
    }
    lemma_entry_exists(steps, phase, expected, statement, h, j);
    lemma_state_counted(steps, phase, h, j);
    let a = last_registration(
        state.log,
        target,
        index_of(table, steps[j]),
        state.generation_of(target),
        state.log.len() as int,
    );
    lemma_last_registration(
        state.log,
        target,
        index_of(table, steps[j]),
        state.generation_of(target),
        state.log.len() as int,
    );
    lemma_registered(steps, phase, h, target, j);
    let entry = state.log[a];
    assert(registers(entry, target, index_of(table, steps[j]), state.generation_of(target)));
    let found = methods[entry.ordinal as int];
    lemma_indexed(steps, j, method);
    lemma_same_index(steps, found, method);
}

/// Enumeration reads the registration with the ordinal that is due.
pub proof fn law_enumeration_reads_registrations(
    steps: Seq<Step>,
    phase: TxPhase,
    expected: Option<Map<u32, [u64; 4]>>,
    statement: Option<TransactionStatement>,
    h: spec_fn([u64; 4], [u64; 8]) -> [u64; 4],
    j: int,
    method: MethodHash,
)
    requires
        0 <= j < steps.len() <= u32::MAX,
        accepted(
            replay(steps, phase, h),
            methods_of(steps, steps.len() as int),
            expected,
            statement,
            h,
        ),
        steps[j] == (Step::ReadAbi { method }),
    ensures
        state_after(steps, phase, h, j).tx.abi_read_ordinal < registered(
            steps,
            phase,
            h,
            state_after(steps, phase, h, j).boundary(Opcode::ReadAbi),
            j,
        ).len(),
        registered(
            steps,
            phase,
            h,
            state_after(steps, phase, h, j).boundary(Opcode::ReadAbi),
            j,
        )[state_after(steps, phase, h, j).tx.abi_read_ordinal as int] == method,
{
    let table = methods_of(steps, steps.len() as int);
    let state = state_after(steps, phase, h, j);
    let owner = state.boundary(Opcode::ReadAbi);
    let methods = registered(steps, phase, h, owner, j);
    lemma_entry_exists(steps, phase, expected, statement, h, j);
    lemma_state_counted(steps, phase, h, j);
    let due = LogEntry {
        owner,
        method_index: index_of(table, steps[j]),
        generation: state.generation_of(owner),
        ordinal: state.tx.abi_read_ordinal,
    };
    let a = first_entry(state.log, due, 0);
    lemma_first_entry(state.log, due, 0);
    lemma_registered(steps, phase, h, owner, j);
    assert(state.log[a] == due);
    lemma_indexed(steps, j, method);
    lemma_same_index(steps, methods[due.ordinal as int], method);
}

} // verus!
