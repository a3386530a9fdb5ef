//! Random-access memory that the rows of the relation read and write.
//!
//! A memory is a list of ports. Each port of an active row reads or writes one
//! cell, in the order of the rows and, within a row, of the memories and their
//! ports. A cell that was never written holds zero.

use std::collections::HashMap;

use vstd::prelude::*;

use crate::field::{canonical, residue};
use crate::layout::{
    COL_ABI_GENERATION_ADDR, COL_ABI_GENERATION_AFTER, COL_ABI_GENERATION_BEFORE,
    COL_ABI_METHOD_COUNT_ADDR, COL_ABI_METHOD_COUNT_AFTER, COL_ABI_METHOD_COUNT_BEFORE,
    COL_ABI_METHOD_COUNT_READ, COL_ABI_METHOD_COUNT_WRITE, COL_CALL_STACK_EXPECTED_ADDR_STRIDE_8,
    COL_CALL_STACK_EXPECTED_ARG_VALUE, COL_CALL_STACK_EXPECTED_RESULT_VALUE,
    COL_CALL_STACK_MUL_STRIDE_8, COL_CALL_STACK_POP, COL_CALL_STACK_PUSH, COL_CALL_STACK_TOP,
    COL_CALL_TARGET, COL_CURR_BEFORE, COL_ENABLED_METHOD_LOG_ADDR,
    COL_ENABLED_METHOD_LOG_GENERATION, COL_ENABLED_METHOD_LOG_ORDINAL, COL_ENABLED_METHOD_LOG_UTXO,
    COL_EVENT_ACTIVE, COL_EVENT_OWNER_STRIDE_8, COL_IN_WORDS, COL_METHOD_APPEND,
    COL_METHOD_HASH_VALUE, COL_METHOD_INDEX, COL_METHOD_LOOKUP, COL_METHOD_TABLE_ADDR,
    COL_OUT_WORDS, COL_RESOURCE_RESOLVER_ADDR_CID, COL_RESOURCE_RESOLVER_ADDR_HANDLE,
    COL_RESOURCE_RESOLVER_READ, COL_RESOURCE_RESOLVER_VALUE, COL_RESOURCE_RESOLVER_WRITE,
    COL_SEL_CALL_METHOD, COL_SEL_READ_ABI, COL_SEL_YIELD_BEGIN,
};
use crate::relation::{at, value_at};
use crate::trace::MethodHash;

verus! {

broadcast use vstd::std_specs::hash::group_hash_axioms;

/// The memories of the relation.
#[derive(Clone, Copy, Debug, PartialEq, Eq, Structural)]
pub enum MemoryId {
    CallStackCaller,
    CallStackExpectedArgument,
    CallStackExpectedResult,
    CallStackExpectedMethod,
    /// Read-only, preloaded with the methods of the trace.
    MethodTable,
    EnabledMethodLogUtxo,
    EnabledMethodLogGeneration,
    EnabledMethodLogMethod,
    EnabledMethodLogOrdinal,
    ResourceResolver,
    AbiGeneration,
    AbiMethodCount,
    TraceDigest,
}

/// What a port does to its cell.
#[derive(Clone, Copy, Debug, PartialEq, Eq, Structural)]
pub enum MemoryPortKind {
    Read,
    /// A write, which may also fix the value that it replaces.
    Write { value_before_column: Option<usize> },
}

/// When a port is active.
#[derive(Clone, Copy, Debug, PartialEq, Eq, Structural)]
pub enum MemoryPortActivation {
    Always,
    /// Where a column is not zero.
    When(usize),
    /// Where a column is zero.
    Unless(usize),
}

/// An access of a row to one cell of a memory.
#[derive(Clone, Copy, Debug, PartialEq, Eq, Structural)]
pub struct MemoryPort {
    /// High word of the address, where there is one.
    pub bank_column: Option<usize>,
    pub address_column: usize,
    pub value_column: usize,
    pub kind: MemoryPortKind,
    pub activation: MemoryPortActivation,
}

/// A memory and its ports.
#[derive(Debug)]
pub struct Memory {
    pub id: MemoryId,
    pub ports: Vec<MemoryPort>,
}

/// What a [`Memory`] is.
#[verifier::ext_equal]
pub struct MemoryModel {
    pub id: MemoryId,
    pub ports: Seq<MemoryPort>,
}

impl View for Memory {
    type V = MemoryModel;

    open spec fn view(&self) -> MemoryModel {
        MemoryModel { id: self.id, ports: self.ports@ }
    }
}

/// What a list of memories is.
pub open spec fn memories(layout: Seq<Memory>) -> Seq<MemoryModel> {
    Seq::new(layout.len(), |i: int| layout[i]@)
}

/// An access that memory contradicts.
#[derive(Clone, Copy, Debug, PartialEq, Eq)]
pub enum MemoryCheckError {
    /// The cell holds a value that was written, and not `actual`.
    ReadMismatch {
        memory: MemoryId,
        row: usize,
        port: usize,
        bank: u64,
        address: u64,
        expected: u64,
        actual: u64,
    },
    /// The cell was never written, and `actual` is not zero.
    ZeroReadMismatch {
        memory: MemoryId,
        row: usize,
        port: usize,
        bank: u64,
        address: u64,
        actual: u64,
    },
}

/// A read of a cell.
pub open spec fn read_port(gate: usize, address: usize, value: usize) -> MemoryPort {
    MemoryPort {
        bank_column: None,
        address_column: address,
        value_column: value,
        kind: MemoryPortKind::Read,
        activation: MemoryPortActivation::When(gate),
    }
}

/// A write of a cell.
pub open spec fn write_port(
    gate: usize,
    address: usize,
    value: usize,
    before: Option<usize>,
) -> MemoryPort {
    MemoryPort {
        bank_column: None,
        address_column: address,
        value_column: value,
        kind: MemoryPortKind::Write { value_before_column: before },
        activation: MemoryPortActivation::When(gate),
    }
}

/// Reads of eight cells.
pub open spec fn read_lanes(gate: usize, address: usize, value: usize) -> Seq<MemoryPort> {
    Seq::new(8, |i: int| read_port(gate, (address + i) as usize, (value + i) as usize))
}

/// Writes of eight cells.
pub open spec fn write_lanes(gate: usize, address: usize, value: usize) -> Seq<MemoryPort> {
    Seq::new(8, |i: int| write_port(gate, (address + i) as usize, (value + i) as usize, None))
}

/// Writes of eight cells that fix the values they replace.
pub open spec fn update_lanes(
    gate: usize,
    address: usize,
    value: usize,
    before: usize,
) -> Seq<MemoryPort> {
    Seq::new(
        8,
        |i: int|
            write_port(
                gate,
                (address + i) as usize,
                (value + i) as usize,
                Some((before + i) as usize),
            ),
    )
}

/// Number of memories.
pub const MEMORY_COUNT: usize = 13;

/// The call stack: callers, and what a call leaves for entry and return.
pub open spec fn stack_memories() -> Seq<MemoryModel> {
    seq![
        MemoryModel {
            id: MemoryId::CallStackCaller,
            ports: seq![
                write_port(
                    COL_CALL_STACK_PUSH,
                    COL_CALL_STACK_MUL_STRIDE_8,
                    COL_CURR_BEFORE,
                    None,
                ),
                read_port(COL_CALL_STACK_POP, COL_CALL_STACK_MUL_STRIDE_8, COL_CALL_TARGET),
            ],
        },
        MemoryModel {
            id: MemoryId::CallStackExpectedArgument,
            ports: write_lanes(
                COL_CALL_STACK_PUSH,
                COL_CALL_STACK_EXPECTED_ADDR_STRIDE_8,
                COL_CALL_STACK_EXPECTED_ARG_VALUE,
            ) + read_lanes(
                COL_CALL_STACK_TOP,
                COL_CALL_STACK_EXPECTED_ADDR_STRIDE_8,
                COL_CALL_STACK_EXPECTED_ARG_VALUE,
            ),
        },
        MemoryModel {
            id: MemoryId::CallStackExpectedResult,
            ports: write_lanes(
                COL_CALL_STACK_PUSH,
                COL_CALL_STACK_MUL_STRIDE_8,
                COL_CALL_STACK_EXPECTED_RESULT_VALUE,
            ) + read_lanes(
                COL_CALL_STACK_POP,
                COL_CALL_STACK_MUL_STRIDE_8,
                COL_CALL_STACK_EXPECTED_RESULT_VALUE,
            ),
        },
        MemoryModel {
            id: MemoryId::CallStackExpectedMethod,
            ports: write_lanes(
                COL_CALL_STACK_PUSH,
                COL_CALL_STACK_EXPECTED_ADDR_STRIDE_8,
                COL_METHOD_HASH_VALUE,
            ) + read_lanes(
                COL_CALL_STACK_TOP,
                COL_CALL_STACK_EXPECTED_ADDR_STRIDE_8,
                COL_METHOD_HASH_VALUE,
            ),
        },
    ]
}

/// The methods of the trace, and the log of those enabled.
pub open spec fn method_memories() -> Seq<MemoryModel> {
    seq![
        MemoryModel {
            id: MemoryId::MethodTable,
            ports: read_lanes(COL_METHOD_LOOKUP, COL_METHOD_TABLE_ADDR, COL_METHOD_HASH_VALUE),
        },
        MemoryModel {
            id: MemoryId::EnabledMethodLogUtxo,
            ports: log_ports(COL_ENABLED_METHOD_LOG_UTXO),
        },
        MemoryModel {
            id: MemoryId::EnabledMethodLogGeneration,
            ports: log_ports(COL_ENABLED_METHOD_LOG_GENERATION),
        },
        MemoryModel { id: MemoryId::EnabledMethodLogMethod, ports: log_ports(COL_METHOD_INDEX) },
        MemoryModel {
            id: MemoryId::EnabledMethodLogOrdinal,
            ports: seq![
                write_port(
                    COL_METHOD_APPEND,
                    COL_ENABLED_METHOD_LOG_ADDR,
                    COL_ENABLED_METHOD_LOG_ORDINAL,
                    None,
                ),
                read_port(
                    COL_SEL_READ_ABI,
                    COL_ENABLED_METHOD_LOG_ADDR,
                    COL_ENABLED_METHOD_LOG_ORDINAL,
                ),
            ],
        },
    ]
}

/// A part of a log entry: written on append, read by a call and by enumeration.
pub open spec fn log_ports(value: usize) -> Seq<MemoryPort> {
    seq![
        write_port(COL_METHOD_APPEND, COL_ENABLED_METHOD_LOG_ADDR, value, None),
        read_port(COL_SEL_CALL_METHOD, COL_ENABLED_METHOD_LOG_ADDR, value),
        read_port(COL_SEL_READ_ABI, COL_ENABLED_METHOD_LOG_ADDR, value),
    ]
}

/// A port of the resource bindings.
pub open spec fn resolver_port(gate: usize, kind: MemoryPortKind) -> MemoryPort {
    MemoryPort {
        bank_column: Some(COL_RESOURCE_RESOLVER_ADDR_CID),
        address_column: COL_RESOURCE_RESOLVER_ADDR_HANDLE,
        value_column: COL_RESOURCE_RESOLVER_VALUE,
        kind,
        activation: MemoryPortActivation::When(gate),
    }
}

/// Resource bindings, ABI generations, registration counts and event chains.
pub open spec fn instance_memories() -> Seq<MemoryModel> {
    seq![
        MemoryModel {
            id: MemoryId::ResourceResolver,
            ports: seq![
                resolver_port(
                    COL_RESOURCE_RESOLVER_WRITE,
                    MemoryPortKind::Write { value_before_column: None },
                ),
                resolver_port(COL_RESOURCE_RESOLVER_READ, MemoryPortKind::Read),
            ],
        },
        MemoryModel {
            id: MemoryId::AbiGeneration,
            ports: seq![
                read_port(COL_METHOD_APPEND, COL_ABI_GENERATION_ADDR, COL_ABI_GENERATION_BEFORE),
                read_port(COL_SEL_CALL_METHOD, COL_ABI_GENERATION_ADDR, COL_ABI_GENERATION_BEFORE),
                read_port(COL_SEL_READ_ABI, COL_ABI_GENERATION_ADDR, COL_ABI_GENERATION_BEFORE),
                write_port(
                    COL_SEL_YIELD_BEGIN,
                    COL_ABI_GENERATION_ADDR,
                    COL_ABI_GENERATION_AFTER,
                    Some(COL_ABI_GENERATION_BEFORE),
                ),
            ],
        },
        MemoryModel {
            id: MemoryId::AbiMethodCount,
            ports: seq![
                read_port(
                    COL_ABI_METHOD_COUNT_READ,
                    COL_ABI_METHOD_COUNT_ADDR,
                    COL_ABI_METHOD_COUNT_BEFORE,
                ),
                write_port(
                    COL_ABI_METHOD_COUNT_WRITE,
                    COL_ABI_METHOD_COUNT_ADDR,
                    COL_ABI_METHOD_COUNT_AFTER,
                    Some(COL_ABI_METHOD_COUNT_BEFORE),
                ),
            ],
        },
        MemoryModel {
            id: MemoryId::TraceDigest,
            ports: update_lanes(
                COL_EVENT_ACTIVE,
                COL_EVENT_OWNER_STRIDE_8,
                COL_OUT_WORDS,
                COL_IN_WORDS,
            ),
        },
    ]
}

/// The memories of the relation, in the order of their accesses.
pub open spec fn memory_layout() -> Seq<MemoryModel> {
    stack_memories() + method_memories() + instance_memories()
}

fn read(gate: usize, address: usize, value: usize) -> (port: MemoryPort)
    ensures
        port == read_port(gate, address, value),
{
    MemoryPort {
        bank_column: None,
        address_column: address,
        value_column: value,
        kind: MemoryPortKind::Read,
        activation: MemoryPortActivation::When(gate),
    }
}

fn write(gate: usize, address: usize, value: usize, before: Option<usize>) -> (port: MemoryPort)
    ensures
        port == write_port(gate, address, value, before),
{
    MemoryPort {
        bank_column: None,
        address_column: address,
        value_column: value,
        kind: MemoryPortKind::Write { value_before_column: before },
        activation: MemoryPortActivation::When(gate),
    }
}

fn push_read_lanes(ports: &mut Vec<MemoryPort>, gate: usize, address: usize, value: usize)
    requires
        address + 8 <= usize::MAX,
        value + 8 <= usize::MAX,
    ensures
        final(ports)@ == old(ports)@ + read_lanes(gate, address, value),
{
    let ghost start = ports@;
    let mut i: usize = 0;
    while i < 8
        invariant
            i <= 8,
            address + 8 <= usize::MAX,
            value + 8 <= usize::MAX,
            ports@ == start + read_lanes(gate, address, value).take(i as int),
        decreases 8 - i,
    {
        ports.push(read(gate, address + i, value + i));
        i = i + 1;
        assert(ports@ =~= start + read_lanes(gate, address, value).take(i as int));
    }
    assert(ports@ =~= start + read_lanes(gate, address, value));
}

fn push_write_lanes(ports: &mut Vec<MemoryPort>, gate: usize, address: usize, value: usize)
    requires
        address + 8 <= usize::MAX,
        value + 8 <= usize::MAX,
    ensures
        final(ports)@ == old(ports)@ + write_lanes(gate, address, value),
{
    let ghost start = ports@;
    let mut i: usize = 0;
    while i < 8
        invariant
            i <= 8,
            address + 8 <= usize::MAX,
            value + 8 <= usize::MAX,
            ports@ == start + write_lanes(gate, address, value).take(i as int),
        decreases 8 - i,
    {
        ports.push(write(gate, address + i, value + i, None));
        i = i + 1;
        assert(ports@ =~= start + write_lanes(gate, address, value).take(i as int));
    }
    assert(ports@ =~= start + write_lanes(gate, address, value));
}

fn push_update_lanes(
    ports: &mut Vec<MemoryPort>,
    gate: usize,
    address: usize,
    value: usize,
    before: usize,
)
    requires
        address + 8 <= usize::MAX,
        value + 8 <= usize::MAX,
        before + 8 <= usize::MAX,
    ensures
        final(ports)@ == old(ports)@ + update_lanes(gate, address, value, before),
{
    let ghost start = ports@;
    let mut i: usize = 0;
    while i < 8
        invariant
            i <= 8,
            address + 8 <= usize::MAX,
            value + 8 <= usize::MAX,
            before + 8 <= usize::MAX,
            ports@ == start + update_lanes(gate, address, value, before).take(i as int),
        decreases 8 - i,
    {
        ports.push(write(gate, address + i, value + i, Some(before + i)));
        i = i + 1;
        assert(ports@ =~= start + update_lanes(gate, address, value, before).take(i as int));
    }
    assert(ports@ =~= start + update_lanes(gate, address, value, before));
}

/// A memory of the call stack whose cells a push writes and another access reads.
fn stack_memory(id: MemoryId, read_gate: usize, address: usize, value: usize) -> (memory: Memory)
    requires
        address + 8 <= usize::MAX,
        value + 8 <= usize::MAX,
    ensures
        memory@ == (MemoryModel {
            id,
            ports: write_lanes(COL_CALL_STACK_PUSH, address, value) + read_lanes(
                read_gate,
                address,
                value,
            ),
        }),
{
    let mut ports: Vec<MemoryPort> = Vec::new();
    push_write_lanes(&mut ports, COL_CALL_STACK_PUSH, address, value);
    push_read_lanes(&mut ports, read_gate, address, value);
    assert(ports@ =~= write_lanes(COL_CALL_STACK_PUSH, address, value) + read_lanes(
        read_gate,
        address,
        value,
    ));
    Memory { id, ports }
}

/// A memory of the enabled-method log.
fn log_memory(id: MemoryId, value: usize) -> (memory: Memory)
    ensures
        memory@ == (MemoryModel { id, ports: log_ports(value) }),
{
    let ports: Vec<MemoryPort> = vec![
        write(COL_METHOD_APPEND, COL_ENABLED_METHOD_LOG_ADDR, value, None),
        read(COL_SEL_CALL_METHOD, COL_ENABLED_METHOD_LOG_ADDR, value),
        read(COL_SEL_READ_ABI, COL_ENABLED_METHOD_LOG_ADDR, value),
    ];
    assert(ports@ =~= log_ports(value));
    Memory { id, ports }
}

fn resolver(gate: usize, kind: MemoryPortKind) -> (port: MemoryPort)
    ensures
        port == resolver_port(gate, kind),
{
    MemoryPort {
        bank_column: Some(COL_RESOURCE_RESOLVER_ADDR_CID),
        address_column: COL_RESOURCE_RESOLVER_ADDR_HANDLE,
        value_column: COL_RESOURCE_RESOLVER_VALUE,
        kind,
        activation: MemoryPortActivation::When(gate),
    }
}

/// The memories of [`stack_memories`].
fn build_stack_memories() -> (layout: Vec<Memory>)
    ensures
        memories(layout@) == stack_memories(),
{
    let callers: Vec<MemoryPort> = vec![
        write(COL_CALL_STACK_PUSH, COL_CALL_STACK_MUL_STRIDE_8, COL_CURR_BEFORE, None),
        read(COL_CALL_STACK_POP, COL_CALL_STACK_MUL_STRIDE_8, COL_CALL_TARGET),
    ];
    assert(callers@ =~= stack_memories()[0].ports);
    let layout = vec![
        Memory { id: MemoryId::CallStackCaller, ports: callers },
        stack_memory(
            MemoryId::CallStackExpectedArgument,
            COL_CALL_STACK_TOP,
            COL_CALL_STACK_EXPECTED_ADDR_STRIDE_8,
            COL_CALL_STACK_EXPECTED_ARG_VALUE,
        ),
        stack_memory(
            MemoryId::CallStackExpectedResult,
            COL_CALL_STACK_POP,
            COL_CALL_STACK_MUL_STRIDE_8,
            COL_CALL_STACK_EXPECTED_RESULT_VALUE,
        ),
        stack_memory(
            MemoryId::CallStackExpectedMethod,
            COL_CALL_STACK_TOP,
            COL_CALL_STACK_EXPECTED_ADDR_STRIDE_8,
            COL_METHOD_HASH_VALUE,
        ),
    ];
    assert(memories(layout@) =~= stack_memories());
    layout
}

/// The memories of [`method_memories`].
fn build_method_memories() -> (layout: Vec<Memory>)
    ensures
        memories(layout@) == method_memories(),
{
    let mut lookups: Vec<MemoryPort> = Vec::new();
    push_read_lanes(&mut lookups, COL_METHOD_LOOKUP, COL_METHOD_TABLE_ADDR, COL_METHOD_HASH_VALUE);
    let ordinals: Vec<MemoryPort> = vec![
        write(
            COL_METHOD_APPEND,
            COL_ENABLED_METHOD_LOG_ADDR,
            COL_ENABLED_METHOD_LOG_ORDINAL,
            None,
        ),
        read(COL_SEL_READ_ABI, COL_ENABLED_METHOD_LOG_ADDR, COL_ENABLED_METHOD_LOG_ORDINAL),
    ];
    assert(lookups@ =~= method_memories()[0].ports);
    assert(ordinals@ =~= method_memories()[4].ports);
    let layout = vec![
        Memory { id: MemoryId::MethodTable, ports: lookups },
        log_memory(MemoryId::EnabledMethodLogUtxo, COL_ENABLED_METHOD_LOG_UTXO),
        log_memory(MemoryId::EnabledMethodLogGeneration, COL_ENABLED_METHOD_LOG_GENERATION),
        log_memory(MemoryId::EnabledMethodLogMethod, COL_METHOD_INDEX),
        Memory { id: MemoryId::EnabledMethodLogOrdinal, ports: ordinals },
    ];
    assert(memories(layout@) =~= method_memories());
    layout
}

/// The memories of [`instance_memories`].
fn build_instance_memories() -> (layout: Vec<Memory>)
    ensures
        memories(layout@) == instance_memories(),
{
    let bindings: Vec<MemoryPort> = vec![
        resolver(
            COL_RESOURCE_RESOLVER_WRITE,
            MemoryPortKind::Write { value_before_column: None },
        ),
        resolver(COL_RESOURCE_RESOLVER_READ, MemoryPortKind::Read),
    ];
    let generations: Vec<MemoryPort> = vec![
        read(COL_METHOD_APPEND, COL_ABI_GENERATION_ADDR, COL_ABI_GENERATION_BEFORE),
        read(COL_SEL_CALL_METHOD, COL_ABI_GENERATION_ADDR, COL_ABI_GENERATION_BEFORE),
        read(COL_SEL_READ_ABI, COL_ABI_GENERATION_ADDR, COL_ABI_GENERATION_BEFORE),
        write(
            COL_SEL_YIELD_BEGIN,
            COL_ABI_GENERATION_ADDR,
            COL_ABI_GENERATION_AFTER,
            Some(COL_ABI_GENERATION_BEFORE),
        ),
    ];
    let counts: Vec<MemoryPort> = vec![
        read(COL_ABI_METHOD_COUNT_READ, COL_ABI_METHOD_COUNT_ADDR, COL_ABI_METHOD_COUNT_BEFORE),
        write(
            COL_ABI_METHOD_COUNT_WRITE,
            COL_ABI_METHOD_COUNT_ADDR,
            COL_ABI_METHOD_COUNT_AFTER,
            Some(COL_ABI_METHOD_COUNT_BEFORE),
        ),
    ];
    let mut digests: Vec<MemoryPort> = Vec::new();
    push_update_lanes(
        &mut digests,
        COL_EVENT_ACTIVE,
        COL_EVENT_OWNER_STRIDE_8,
        COL_OUT_WORDS,
        COL_IN_WORDS,
    );
    assert(bindings@ =~= instance_memories()[0].ports);
    assert(generations@ =~= instance_memories()[1].ports);
    assert(counts@ =~= instance_memories()[2].ports);
    assert(digests@ =~= instance_memories()[3].ports);
    let layout = vec![
        Memory { id: MemoryId::ResourceResolver, ports: bindings },
        Memory { id: MemoryId::AbiGeneration, ports: generations },
        Memory { id: MemoryId::AbiMethodCount, ports: counts },
        Memory { id: MemoryId::TraceDigest, ports: digests },
    ];
    assert(memories(layout@) =~= instance_memories());
    layout
}

/// Build the memories of the relation.
pub fn build_memory_layout() -> (layout: Vec<Memory>)
    ensures
        memories(layout@) == memory_layout(),
{
    let mut layout = build_stack_memories();
    let mut methods = build_method_memories();
    let mut instances = build_instance_memories();
    let ghost a = layout@;
    let ghost b = methods@;
    let ghost c = instances@;
    layout.append(&mut methods);
    layout.append(&mut instances);
    assert(layout@ =~= a + b + c);
    assert(memories(layout@) =~= memories(a) + memories(b) + memories(c));
    layout
}

/// Contents of a memory: the cells that were written, keyed by [`cell_key`].
pub type Store = Map<u128, u64>;

/// Key of a cell.
pub open spec fn cell_key(bank: u64, address: u64) -> u128 {
    (bank * 0x1_0000_0000_0000_0000 + address) as u128
}

/// What a cell holds.
pub open spec fn held(store: Store, key: u128) -> u64 {
    if store.contains_key(key) {
        store[key]
    } else {
        0
    }
}

/// Canonical value of a column.
pub open spec fn value_of(z: Seq<u64>, column: usize) -> u64 {
    residue(at(z, column) as int)
}

impl MemoryPort {
    /// Whether a row activates the port.
    pub open spec fn active(self, z: Seq<u64>) -> bool {
        match self.activation {
            MemoryPortActivation::Always => true,
            MemoryPortActivation::When(gate) => value_of(z, gate) != 0,
            MemoryPortActivation::Unless(gate) => value_of(z, gate) == 0,
        }
    }

    /// High word of the address in a row.
    pub open spec fn bank(self, z: Seq<u64>) -> u64 {
        match self.bank_column {
            Some(column) => value_of(z, column),
            None => 0,
        }
    }

    /// Key of the cell that a row accesses.
    pub open spec fn key(self, z: Seq<u64>) -> u128 {
        cell_key(self.bank(z), value_of(z, self.address_column))
    }

    /// The value that a row claims the cell holds before the access, if it claims
    /// one.
    pub open spec fn claim(self, z: Seq<u64>) -> Option<u64> {
        match self.kind {
            MemoryPortKind::Read => Some(value_of(z, self.value_column)),
            MemoryPortKind::Write { value_before_column: Some(column) } => Some(
                value_of(z, column),
            ),
            MemoryPortKind::Write { value_before_column: None } => None,
        }
    }

    /// Whether memory agrees with the access of a row.
    pub open spec fn agrees(self, z: Seq<u64>, store: Store) -> bool {
        self.active(z) ==> (self.claim(z) matches Some(value) ==> value == held(
            store,
            self.key(z),
        ))
    }

    /// The memory after the access of a row.
    pub open spec fn after(self, z: Seq<u64>, store: Store) -> Store {
        if self.active(z) && self.kind is Write {
            store.insert(self.key(z), value_of(z, self.value_column))
        } else {
            store
        }
    }

    /// The error of an access that memory contradicts.
    pub open spec fn error(
        self,
        z: Seq<u64>,
        store: Store,
        memory: MemoryId,
        row: int,
        port: int,
    ) -> MemoryCheckError {
        let key = self.key(z);
        if store.contains_key(key) {
            MemoryCheckError::ReadMismatch {
                memory,
                row: row as usize,
                port: port as usize,
                bank: self.bank(z),
                address: value_of(z, self.address_column),
                expected: store[key],
                actual: self.claim(z)->0,
            }
        } else {
            MemoryCheckError::ZeroReadMismatch {
                memory,
                row: row as usize,
                port: port as usize,
                bank: self.bank(z),
                address: value_of(z, self.address_column),
                actual: self.claim(z)->0,
            }
        }
    }
}

/// A memory after the first `n` ports of a row.
pub open spec fn after_ports(ports: Seq<MemoryPort>, z: Seq<u64>, store: Store, n: int) -> Store
    decreases n,
{
    if n <= 0 {
        store
    } else {
        ports[n - 1].after(z, after_ports(ports, z, store, n - 1))
    }
}

/// A memory after the first `r` rows.
pub open spec fn after_rows(
    ports: Seq<MemoryPort>,
    rows: Seq<Seq<u64>>,
    store: Store,
    r: int,
) -> Store
    decreases r,
{
    if r <= 0 {
        store
    } else {
        after_ports(ports, rows[r - 1], after_rows(ports, rows, store, r - 1), ports.len() as int)
    }
}

/// The first contradiction of a row to one memory, from port `p` on.
pub open spec fn ports_failure(
    memory: MemoryModel,
    z: Seq<u64>,
    store: Store,
    r: int,
    p: int,
) -> Option<MemoryCheckError>
    decreases memory.ports.len() - p,
{
    if p < 0 || p >= memory.ports.len() {
        None
    } else {
        let found = after_ports(memory.ports, z, store, p);
        if memory.ports[p].agrees(z, found) {
            ports_failure(memory, z, store, r, p + 1)
        } else {
            Some(memory.ports[p].error(z, found, memory.id, r, p))
        }
    }
}

/// The first contradiction of a row, from memory `m` on.
pub open spec fn row_failure(
    layout: Seq<MemoryModel>,
    z: Seq<u64>,
    stores: Seq<Store>,
    r: int,
    m: int,
) -> Option<MemoryCheckError>
    decreases layout.len() - m,
{
    if m < 0 || m >= layout.len() {
        None
    } else {
        match ports_failure(layout[m], z, stores[m], r, 0) {
            Some(error) => Some(error),
            None => row_failure(layout, z, stores, r, m + 1),
        }
    }
}

/// The memories as row `r` finds them.
pub open spec fn stores_before(
    layout: Seq<MemoryModel>,
    rows: Seq<Seq<u64>>,
    initial: Seq<Store>,
    r: int,
) -> Seq<Store> {
    Seq::new(layout.len(), |m: int| after_rows(layout[m].ports, rows, initial[m], r))
}

/// The first contradiction, from row `r` on.
pub open spec fn memory_failure(
    layout: Seq<MemoryModel>,
    rows: Seq<Seq<u64>>,
    initial: Seq<Store>,
    r: int,
) -> Option<MemoryCheckError>
    decreases rows.len() - r,
{
    if r < 0 || r >= rows.len() {
        None
    } else {
        match row_failure(layout, rows[r], stores_before(layout, rows, initial, r), r, 0) {
            Some(error) => Some(error),
            None => memory_failure(layout, rows, initial, r + 1),
        }
    }
}

/// Whether memory agrees with every access of row `r` to memory `m`.
pub open spec fn row_agrees(
    layout: Seq<MemoryModel>,
    rows: Seq<Seq<u64>>,
    initial: Seq<Store>,
    r: int,
    m: int,
) -> bool {
    forall|p: int|
        0 <= p < layout[m].ports.len() ==> (#[trigger] layout[m].ports[p]).agrees(
            rows[r],
            after_ports(
                layout[m].ports,
                rows[r],
                after_rows(layout[m].ports, rows, initial[m], r),
                p,
            ),
        )
}

/// Whether memory agrees with every access of some rows.
pub open spec fn memory_consistent(
    layout: Seq<MemoryModel>,
    rows: Seq<Seq<u64>>,
    initial: Seq<Store>,
) -> bool {
    forall|r: int, m: int|
        0 <= r < rows.len() && 0 <= m < layout.len() ==> #[trigger] row_agrees(
            layout,
            rows,
            initial,
            r,
            m,
        )
}

proof fn lemma_ports_failure(memory: MemoryModel, z: Seq<u64>, store: Store, r: int, p: int)
    requires
        0 <= p,
    ensures
        ports_failure(memory, z, store, r, p) is None <==> (forall|q: int|
            p <= q < memory.ports.len() ==> (#[trigger] memory.ports[q]).agrees(
                z,
                after_ports(memory.ports, z, store, q),
            )),
    decreases memory.ports.len() - p,
{
    if p < memory.ports.len() && memory.ports[p].agrees(z, after_ports(memory.ports, z, store, p)) {
        lemma_ports_failure(memory, z, store, r, p + 1);
    }
}

proof fn lemma_row_failure(
    layout: Seq<MemoryModel>,
    rows: Seq<Seq<u64>>,
    initial: Seq<Store>,
    r: int,
    m: int,
)
    requires
        0 <= m,
    ensures
        row_failure(layout, rows[r], stores_before(layout, rows, initial, r), r, m) is None <==> (
        forall|i: int|
            m <= i < layout.len() ==> #[trigger] row_agrees(layout, rows, initial, r, i)),
    decreases layout.len() - m,
{
    if m < layout.len() {
        lemma_ports_failure(
            layout[m],
            rows[r],
            stores_before(layout, rows, initial, r)[m],
            r,
            0,
        );
        assert(ports_failure(
            layout[m],
            rows[r],
            stores_before(layout, rows, initial, r)[m],
            r,
            0,
        ) is None <==> row_agrees(layout, rows, initial, r, m));
        lemma_row_failure(layout, rows, initial, r, m + 1);
    }
}

/// There is no first contradiction exactly where memory agrees with every access.
pub proof fn lemma_memory_failure(
    layout: Seq<MemoryModel>,
    rows: Seq<Seq<u64>>,
    initial: Seq<Store>,
    r: int,
)
    requires
        0 <= r <= rows.len(),
    ensures
        memory_failure(layout, rows, initial, r) is None <==> (forall|s: int, m: int|
            r <= s < rows.len() && 0 <= m < layout.len() ==> #[trigger] row_agrees(
                layout,
                rows,
                initial,
                s,
                m,
            )),
    decreases rows.len() - r,
{
    if r < rows.len() {
        lemma_row_failure(layout, rows, initial, r, 0);
        lemma_memory_failure(layout, rows, initial, r + 1);
    }
}

/// Words that the read-only memory of methods starts with: eight limbs for each.
#[derive(Debug)]
pub struct MemoryPreload {
    pub method_words: Vec<u64>,
}

/// The limbs of the methods of a table.
pub open spec fn table_words(table: Seq<MethodHash>) -> Seq<u64> {
    Seq::new(8 * table.len(), |k: int| table[k / 8].0[k % 8] as u64)
}

/// A memory whose first cells hold some words.
pub open spec fn preloaded(words: Seq<u64>) -> Store {
    Map::new(
        |key: u128| key < words.len(),
        |key: u128| residue(words[key as int] as int),
    )
}

/// Contents of a memory before the first row.
pub open spec fn initial_store(id: MemoryId, words: Seq<u64>) -> Store {
    if id == MemoryId::MethodTable {
        preloaded(words)
    } else {
        Map::empty()
    }
}

/// Contents of the memories before the first row.
pub open spec fn initial_stores(layout: Seq<MemoryModel>, words: Seq<u64>) -> Seq<Store> {
    Seq::new(layout.len(), |m: int| initial_store(layout[m].id, words))
}

/// The words that memory starts with for a method table.
pub fn preload_tables(method_table: &Vec<MethodHash>) -> (preload: MemoryPreload)
    ensures
        preload.method_words@ == table_words(method_table@),
{
    let mut words: Vec<u64> = Vec::new();
    let mut i: usize = 0;
    while i < method_table.len()
        invariant
            i <= method_table@.len(),
            words@ == table_words(method_table@.take(i as int)),
        decreases method_table@.len() - i,
    {
        let limbs = method_table[i].0;
        let mut j: usize = 0;
        let ghost start = words@;
        while j < 8
            invariant
                i < method_table@.len(),
                limbs == method_table@[i as int].0,
                start == table_words(method_table@.take(i as int)),
                j <= 8,
                words@.len() == start.len() + j,
                forall|k: int| 0 <= k < start.len() ==> words@[k] == #[trigger] start[k],
                forall|k: int|
                    0 <= k < j ==> words@[start.len() + k] == #[trigger] limbs@[k] as u64,
            decreases 8 - j,
        {
            words.push(limbs[j] as u64);
            j = j + 1;
        }
        i = i + 1;
        assert forall|k: int| 0 <= k < words@.len() implies words@[k] == table_words(
            method_table@.take(i as int),
        )[k] by {
            if k >= start.len() {
                assert(words@[start.len() + (k - start.len())] == limbs@[k - start.len()] as u64);
            } else {
                assert(words@[k] == start[k]);
            }
        }
        assert(words@ =~= table_words(method_table@.take(i as int)));
    }
    assert(method_table@.take(i as int) =~= method_table@);
    MemoryPreload { method_words: words }
}

/// [`value_of`] a column of a row.
pub(crate) fn column_value(z: &Vec<u64>, column: usize) -> (value: u64)
    ensures
        value == value_of(z@, column),
{
    canonical(value_at(z, column))
}

impl MemoryPort {
    /// [`active`](MemoryPort::active) in a row.
    pub fn is_active(&self, z: &Vec<u64>) -> (r: bool)
        ensures
            r == self.active(z@),
    {
        match self.activation {
            MemoryPortActivation::Always => true,
            MemoryPortActivation::When(gate) => column_value(z, gate) != 0,
            MemoryPortActivation::Unless(gate) => column_value(z, gate) == 0,
        }
    }
}

fn load(store: &HashMap<u128, u64>, key: u128) -> (value: Option<u64>)
    ensures
        value == (if store@.contains_key(key) {
            Some(store@[key])
        } else {
            None
        }),
{
    match store.get(&key) {
        Some(value) => Some(*value),
        None => None,
    }
}

/// Check the access of a row through one port, and perform it.
fn access(
    port: &MemoryPort,
    z: &Vec<u64>,
    store: &mut HashMap<u128, u64>,
    memory: MemoryId,
    row: usize,
    index: usize,
) -> (failure: Option<MemoryCheckError>)
    ensures
        failure is None <==> port.agrees(z@, old(store)@),
        failure matches Some(error) ==> error == port.error(
            z@,
            old(store)@,
            memory,
            row as int,
            index as int,
        ),
        failure is None ==> final(store)@ == port.after(z@, old(store)@),
{
    if !port.is_active(z) {
        return None;
    }
    let bank: u64 = match port.bank_column {
        Some(column) => column_value(z, column),
        None => 0,
    };
    let address = column_value(z, port.address_column);
    proof {
        assert(bank * 0x1_0000_0000_0000_0000 + address <= u128::MAX);
    }
    let key: u128 = (bank as u128) * 0x1_0000_0000_0000_0000 + (address as u128);
    let claim: Option<u64> = match port.kind {
        MemoryPortKind::Read => Some(column_value(z, port.value_column)),
        MemoryPortKind::Write { value_before_column: Some(column) } => Some(
            column_value(z, column),
        ),
        MemoryPortKind::Write { value_before_column: None } => None,
    };
    if let Some(actual) = claim {
        match load(store, key) {
            Some(expected) => {
                if actual != expected {
                    return Some(
                        MemoryCheckError::ReadMismatch {
                            memory,
                            row,
                            port: index,
                            bank,
                            address,
                            expected,
                            actual,
                        },
                    );
                }
            },
            None => {
                if actual != 0 {
                    return Some(
                        MemoryCheckError::ZeroReadMismatch {
                            memory,
                            row,
                            port: index,
                            bank,
                            address,
                            actual,
                        },
                    );
                }
            },
        }
    }
    if let MemoryPortKind::Write { .. } = port.kind {
        store.insert(key, column_value(z, port.value_column));
    }
    None
}

/// Contents of memories in use.
spec fn contents(stores: Seq<HashMap<u128, u64>>) -> Seq<Store> {
    Seq::new(stores.len(), |i: int| stores[i]@)
}

/// [`preloaded`] of some words.
fn load_words(words: &Vec<u64>) -> (store: HashMap<u128, u64>)
    ensures
        store@ == preloaded(words@),
{
    let mut store: HashMap<u128, u64> = HashMap::new();
    let mut k: usize = 0;
    assert(store@ =~= preloaded(words@.take(0)));
    while k < words.len()
        invariant
            k <= words@.len(),
            store@ == preloaded(words@.take(k as int)),
        decreases words@.len() - k,
    {
        store.insert(k as u128, canonical(words[k]));
        k = k + 1;
        assert(store@ =~= preloaded(words@.take(k as int)));
    }
    assert(words@.take(k as int) =~= words@);
    store
}

/// [`initial_stores`] of some memories.
fn start_stores(layout: &Vec<Memory>, words: &Vec<u64>) -> (stores: Vec<HashMap<u128, u64>>)
    ensures
        contents(stores@) == initial_stores(memories(layout@), words@),
{
    let mut stores: Vec<HashMap<u128, u64>> = Vec::new();
    let mut m: usize = 0;
    while m < layout.len()
        invariant
            m <= layout@.len(),
            contents(stores@) == initial_stores(memories(layout@), words@).take(m as int),
        decreases layout@.len() - m,
    {
        let store = match layout[m].id {
            MemoryId::MethodTable => load_words(words),
            _ => HashMap::new(),
        };
        assert(store@ =~= initial_store(layout@[m as int].id, words@));
        let ghost before = contents(stores@);
        stores.push(store);
        m = m + 1;
        assert(contents(stores@) =~= before.push(store@));
        assert(contents(stores@) =~= initial_stores(memories(layout@), words@).take(m as int));
    }
    assert(contents(stores@) =~= initial_stores(memories(layout@), words@));
    stores
}

/// What a list of rows is.
pub open spec fn row_views(rows: Seq<Vec<u64>>) -> Seq<Seq<u64>> {
    Seq::new(rows.len(), |i: int| rows[i]@)
}

/// Check the accesses of a row to one memory, and perform them.
fn access_memory(
    memory: &Memory,
    z: &Vec<u64>,
    store: &mut HashMap<u128, u64>,
    row: usize,
) -> (failure: Option<MemoryCheckError>)
    ensures
        failure == ports_failure(memory@, z@, old(store)@, row as int, 0),
        failure is None ==> final(store)@ == after_ports(
            memory@.ports,
            z@,
            old(store)@,
            memory@.ports.len() as int,
        ),
{
    let ghost start = store@;
    let mut p: usize = 0;
    while p < memory.ports.len()
        invariant
            p <= memory@.ports.len(),
            start == old(store)@,
            store@ == after_ports(memory@.ports, z@, start, p as int),
            ports_failure(memory@, z@, start, row as int, 0) == ports_failure(
                memory@,
                z@,
                start,
                row as int,
                p as int,
            ),
        decreases memory@.ports.len() - p,
    {
        let failure = access(&memory.ports[p], z, store, memory.id, row, p);
        if failure.is_some() {
            return failure;
        }
        p = p + 1;
    }
    None
}

/// Check the accesses of a row, and perform them.
fn access_row(
    layout: &Vec<Memory>,
    z: &Vec<u64>,
    stores: &mut Vec<HashMap<u128, u64>>,
    row: usize,
) -> (failure: Option<MemoryCheckError>)
    requires
        old(stores)@.len() == layout@.len(),
    ensures
        final(stores)@.len() == layout@.len(),
        failure == row_failure(memories(layout@), z@, contents(old(stores)@), row as int, 0),
        failure is None ==> (forall|m: int|
            0 <= m < layout@.len() ==> contents(final(stores)@)[m] == after_ports(
                (#[trigger] memories(layout@)[m]).ports,
                z@,
                contents(old(stores)@)[m],
                memories(layout@)[m].ports.len() as int,
            )),
{
    let ghost model = memories(layout@);
    let ghost start = contents(stores@);
    let mut m: usize = 0;
    while m < layout.len()
        invariant
            m <= layout@.len(),
            model == memories(layout@),
            start == contents(old(stores)@),
            start.len() == layout@.len(),
            stores@.len() == layout@.len(),
            forall|i: int|
                0 <= i < layout@.len() ==> contents(stores@)[i] == (if i < m {
                    after_ports(
                        (#[trigger] model[i]).ports,
                        z@,
                        start[i],
                        model[i].ports.len() as int,
                    )
                } else {
                    start[i]
                }),
            row_failure(model, z@, start, row as int, 0) == row_failure(
                model,
                z@,
                start,
                row as int,
                m as int,
            ),
        decreases layout@.len() - m,
    {
        let ghost before = contents(stores@);
        assert(before[m as int] == start[m as int]) by {
            assert(model[m as int].ports == model[m as int].ports);
        }
        assert(stores@[m as int]@ == before[m as int]);
        let failure = access_memory(&layout[m], z, &mut stores[m], row);
        if failure.is_some() {
            return failure;
        }
        assert forall|i: int| 0 <= i < layout@.len() && i != m implies contents(stores@)[i]
            == before[i] by {}
        m = m + 1;
    }
    None
}

/// The first access of some rows that memory contradicts.
pub fn check_memory_rows(layout: &Vec<Memory>, rows: &Vec<Vec<u64>>, preload: &MemoryPreload) -> (
failure: Option<MemoryCheckError>)
    ensures
        failure == memory_failure(
            memories(layout@),
            row_views(rows@),
            initial_stores(memories(layout@), preload.method_words@),
            0,
        ),
        failure is None <==> memory_consistent(
            memories(layout@),
            row_views(rows@),
            initial_stores(memories(layout@), preload.method_words@),
        ),
{
    let ghost model = memories(layout@);
    let ghost zs = row_views(rows@);
    let ghost initial = initial_stores(model, preload.method_words@);
    proof {
        lemma_memory_failure(model, zs, initial, 0);
    }
    let mut stores = start_stores(layout, &preload.method_words);
    assert(stores@.len() == contents(stores@).len());
    assert(contents(stores@) =~= stores_before(model, zs, initial, 0));
    let mut r: usize = 0;
    while r < rows.len()
        invariant
            model == memories(layout@),
            zs == row_views(rows@),
            initial == initial_stores(model, preload.method_words@),
            r <= rows@.len(),
            stores@.len() == layout@.len(),
            contents(stores@) == stores_before(model, zs, initial, r as int),
            memory_failure(model, zs, initial, 0) == memory_failure(model, zs, initial, r as int),
            memory_failure(model, zs, initial, 0) is None <==> memory_consistent(
                model,
                zs,
                initial,
            ),
        decreases rows@.len() - r,
    {
        let failure = access_row(layout, &rows[r], &mut stores, r);
        if failure.is_some() {
            return failure;
        }
        r = r + 1;
        assert forall|m: int| 0 <= m < model.len() implies contents(stores@)[m] == stores_before(
            model,
            zs,
            initial,
            r as int,
        )[m] by {
            assert(model[m].ports == model[m].ports);
        }
        assert(contents(stores@) =~= stores_before(model, zs, initial, r as int));
    }
    None
}

} // verus!
