//! Replay of a trace into one witness record per step.
//!
//! Malformed traces replay too: it is the relation that rejects them.

use std::collections::HashMap;

use vstd::prelude::*;

use crate::compression::{
    commit_block, compression_of, extended_by, is_compression, ZERO_CHAIN,
};
use crate::events::{encode, encoding};
use crate::field::{field_add, field_sub, residue};
use crate::ivc_state::{CoroutineId, CurrPhase, TxPhase};
use crate::method_table::{method_of, method_position, method_table, methods_of, position_from};
use crate::opcode::Opcode;
use crate::trace::{MethodHash, ResourceHandle, StarstreamValue, Step, Trace};

verus! {

broadcast use vstd::std_specs::hash::group_hash_axioms;

/// Eight zero limbs.
pub const ZERO_LIMBS: [u64; 8] = [0, 0, 0, 0, 0, 0, 0, 0];

/// Progress of a transaction.
#[derive(Clone, Copy, Debug, PartialEq, Eq, Structural)]
pub struct TransactionState {
    pub phase: TxPhase,
    pub last_input_has_abi: bool,
    pub output_cursor: u32,
    pub abi_read_remaining: u32,
    pub abi_read_ordinal: u32,
}

/// An entry of the enabled-method log.
#[derive(Clone, Copy, Debug, PartialEq, Eq, Structural)]
pub struct LogEntry {
    pub owner: CoroutineId,
    pub method_index: u32,
    pub generation: u32,
    /// Number of registrations of the owner's generation before this one.
    pub ordinal: u32,
}

/// What one row of the relation is assigned from.
#[derive(Clone, Copy, Debug, PartialEq, Eq)]
pub struct Wit {
    pub tx_before: TransactionState,
    pub tx_after: TransactionState,
    pub boundary_utxo: CoroutineId,
    pub event_owner: CoroutineId,
    pub commitment_before: [u64; 4],
    pub opcode: Opcode,
    pub expected_arguments: Option<[u64; 8]>,
    pub method_hash: Option<[u64; 8]>,
    pub expected_result: Option<[u64; 8]>,
    pub method_index: u32,
    pub curr_before: CoroutineId,
    pub curr_after: CoroutineId,
    pub curr_phase_before: CurrPhase,
    pub curr_phase_after: CurrPhase,
    pub call_sp_before: u64,
    pub call_sp_after: u64,
    pub call_target: CoroutineId,
    pub next_utxo_id_before: u32,
    pub next_utxo_id_after: u32,
    pub enabled_method_log_len_before: u32,
    pub enabled_method_log_len_after: u32,
    pub pending_ctor_key_before: Option<(CoroutineId, ResourceHandle)>,
    pub pending_ctor_key_after: Option<(CoroutineId, ResourceHandle)>,
    pub resolver_address: (CoroutineId, ResourceHandle),
    pub resolver_value: CoroutineId,
    pub resolver_read: bool,
    pub resolver_write: bool,
    pub abi_generation_address: CoroutineId,
    pub abi_generation_before: u32,
    pub abi_generation_after: u32,
    pub abi_method_count_before: u32,
    pub abi_method_count_after: u32,
    pub enabled_method_log_address: u32,
    pub enabled_method_log_utxo: CoroutineId,
    pub enabled_method_log_generation: u32,
}

/// A trace replayed.
pub struct NormalizedTrace {
    pub steps: Vec<Wit>,
    pub method_table: Vec<MethodHash>,
}

/// State of a replay. Maps are keyed by packed coroutine identity.
#[verifier::ext_equal]
pub struct ReplayState {
    pub tx: TransactionState,
    pub curr: CoroutineId,
    pub curr_phase: CurrPhase,
    /// Callers of the frames of the call stack, innermost last.
    pub callers: Seq<CoroutineId>,
    pub call_sp: u64,
    pub next_utxo_id: u32,
    pub pending_ctor_key: Option<(CoroutineId, ResourceHandle)>,
    /// Resource bindings, keyed by [`binding_key`].
    pub bindings: Map<u128, CoroutineId>,
    pub generations: Map<u64, u32>,
    pub method_counts: Map<u64, u32>,
    pub log: Seq<LogEntry>,
    pub chains: Map<u64, [u64; 4]>,
}

/// The limbs of a value as field elements.
pub open spec fn value_limbs(value: StarstreamValue) -> [u64; 8] {
    let limbs = value.halved();
    [
        limbs[0] as u64,
        limbs[1] as u64,
        limbs[2] as u64,
        limbs[3] as u64,
        limbs[4] as u64,
        limbs[5] as u64,
        limbs[6] as u64,
        limbs[7] as u64,
    ]
}

/// The limbs of a method as field elements.
pub open spec fn method_limbs(method: MethodHash) -> [u64; 8] {
    [
        method.0[0] as u64,
        method.0[1] as u64,
        method.0[2] as u64,
        method.0[3] as u64,
        method.0[4] as u64,
        method.0[5] as u64,
        method.0[6] as u64,
        method.0[7] as u64,
    ]
}

/// Key of the binding of a handle of a coroutine.
pub open spec fn binding_key(holder: CoroutineId, handle: ResourceHandle) -> u128 {
    (holder.packed() * 0x1_0000_0000 + handle.0) as u128
}

/// Different handles, and handles of different coroutines, have different keys.
pub proof fn law_bindings_have_distinct_keys(
    a: CoroutineId,
    x: ResourceHandle,
    b: CoroutineId,
    y: ResourceHandle,
)
    ensures
        binding_key(a, x) == binding_key(b, y) ==> a == b && x == y,
{
}

/// Where a replay starts: the initial coordinator frame occupies the first slot of
/// the call stack.
pub open spec fn initial_state(phase: TxPhase) -> ReplayState {
    ReplayState {
        tx: TransactionState {
            phase,
            last_input_has_abi: true,
            output_cursor: 0,
            abi_read_remaining: 0,
            abi_read_ordinal: 0,
        },
        curr: CoroutineId::Coord(1),
        curr_phase: CurrPhase::Executing,
        callers: seq![CoroutineId::Coord(0)],
        call_sp: 1,
        next_utxo_id: 0,
        pending_ctor_key: None,
        bindings: Map::empty(),
        generations: Map::empty(),
        method_counts: Map::empty(),
        log: seq![],
        chains: Map::empty(),
    }
}

/// Address of the first log entry, from `i` on, that equals `entry`; the length of
/// the log where there is none.
pub open spec fn first_entry(log: Seq<LogEntry>, entry: LogEntry, i: int) -> int
    decreases log.len() - i,
{
    if i < 0 || i >= log.len() || log[i] == entry {
        i
    } else {
        first_entry(log, entry, i + 1)
    }
}

/// Whether a log entry registers a method of a generation of a coroutine.
pub open spec fn registers(
    entry: LogEntry,
    owner: CoroutineId,
    method_index: u32,
    generation: u32,
) -> bool {
    entry.owner == owner && entry.method_index == method_index && entry.generation == generation
}

/// Address of the last of the first `n` log entries that registers a method; the
/// length of the log where there is none.
pub open spec fn last_registration(
    log: Seq<LogEntry>,
    owner: CoroutineId,
    method_index: u32,
    generation: u32,
    n: int,
) -> int
    decreases n,
{
    if n <= 0 {
        log.len() as int
    } else if registers(log[n - 1], owner, method_index, generation) {
        n - 1
    } else {
        last_registration(log, owner, method_index, generation, n - 1)
    }
}

impl ReplayState {
    /// Current ABI generation of a coroutine.
    pub open spec fn generation_of(self, id: CoroutineId) -> u32 {
        if self.generations.contains_key(id.packed()) {
            self.generations[id.packed()]
        } else {
            0
        }
    }

    /// Registrations of a coroutine's current generation.
    pub open spec fn count_of(self, id: CoroutineId) -> u32 {
        if self.method_counts.contains_key(id.packed()) {
            self.method_counts[id.packed()]
        } else {
            0
        }
    }

    /// The coroutine that a handle of the current coroutine is bound to.
    pub open spec fn bound_to(self, handle: ResourceHandle) -> CoroutineId {
        let key = binding_key(self.curr, handle);
        if self.bindings.contains_key(key) {
            self.bindings[key]
        } else {
            CoroutineId::Coord(0)
        }
    }

    /// The UTXO that a step of loading or of the output scan is about.
    pub open spec fn boundary(self, op: Opcode) -> CoroutineId {
        match op {
            Opcode::SetStorage => CoroutineId::Utxo(self.next_utxo_id),
            Opcode::PreloadMethod => CoroutineId::Utxo(
                if self.next_utxo_id == 0 {
                    0
                } else {
                    (self.next_utxo_id - 1) as u32
                },
            ),
            Opcode::GetStorage => CoroutineId::Utxo(self.tx.output_cursor),
            Opcode::SkipConsumed => CoroutineId::Utxo(self.tx.output_cursor),
            Opcode::ReadAbi => CoroutineId::Utxo(
                if self.tx.output_cursor == 0 {
                    0
                } else {
                    (self.tx.output_cursor - 1) as u32
                },
            ),
            _ => CoroutineId::Coord(0),
        }
    }

    /// The coroutine whose chain the event of a step extends.
    pub open spec fn event_owner(self, op: Opcode) -> CoroutineId {
        if op == Opcode::SetStorage || op == Opcode::GetStorage {
            self.boundary(op)
        } else if op.has_event() {
            self.curr
        } else {
            CoroutineId::Coord(0)
        }
    }

    /// The chain that the event of a step extends.
    pub open spec fn chain_before(self, op: Opcode) -> [u64; 4] {
        let owner = self.event_owner(op);
        if op.has_event() && self.chains.contains_key(owner.packed()) {
            self.chains[owner.packed()]
        } else {
            ZERO_CHAIN
        }
    }

    /// The coroutine that a step transfers control to.
    pub open spec fn call_target(self, step: Step) -> CoroutineId {
        match step {
            Step::NewUtxo { .. } => CoroutineId::Utxo(self.next_utxo_id),
            Step::Return { .. } => if self.callers.len() > 0 {
                self.callers.last()
            } else {
                CoroutineId::Coord(0)
            },
            Step::CallMethod { resource, .. } => self.bound_to(resource),
            _ => CoroutineId::Coord(0),
        }
    }

    /// The coroutine whose ABI generation a step accesses.
    pub open spec fn generation_address(self, step: Step) -> CoroutineId {
        match step {
            Step::ReadAbi { .. } => self.boundary(Opcode::ReadAbi),
            Step::PreloadMethod { .. } => self.boundary(Opcode::PreloadMethod),
            Step::RegisterMethod { .. } => self.curr,
            Step::YieldBegin => self.curr,
            Step::CallMethod { .. } => self.call_target(step),
            _ => CoroutineId::Coord(0),
        }
    }

    /// The generation that a step reads.
    pub open spec fn generation_read(self, step: Step) -> u32 {
        match step {
            Step::ReadAbi { .. } => self.generation_of(self.generation_address(step)),
            Step::PreloadMethod { .. } => self.generation_of(self.generation_address(step)),
            Step::RegisterMethod { .. } => self.generation_of(self.generation_address(step)),
            Step::YieldBegin => self.generation_of(self.generation_address(step)),
            Step::CallMethod { .. } => self.generation_of(self.generation_address(step)),
            _ => 0,
        }
    }

    /// Transaction progress after a step.
    pub open spec fn tx_after(self, step: Step) -> TransactionState {
        let op = Opcode::of_step(step);
        let tx = if op.is_execution() {
            TransactionState { phase: TxPhase::Running, ..self.tx }
        } else {
            self.tx
        };
        match step {
            Step::ReadAbi { .. } => TransactionState {
                abi_read_ordinal: if tx.abi_read_ordinal == u32::MAX {
                    0
                } else {
                    (tx.abi_read_ordinal + 1) as u32
                },
                abi_read_remaining: if tx.abi_read_remaining == 0 {
                    u32::MAX
                } else {
                    (tx.abi_read_remaining - 1) as u32
                },
                ..tx
            },
            Step::SetStorage { .. } => TransactionState { last_input_has_abi: false, ..tx },
            Step::PreloadMethod { .. } => TransactionState { last_input_has_abi: true, ..tx },
            Step::FinishTransaction => TransactionState { phase: TxPhase::Finished, ..tx },
            Step::GetStorage { .. } => TransactionState {
                abi_read_remaining: self.count_of(self.boundary(op)),
                abi_read_ordinal: 0,
                output_cursor: (tx.output_cursor + 1) as u32,
                ..tx
            },
            Step::SkipConsumed => TransactionState {
                output_cursor: (tx.output_cursor + 1) as u32,
                ..tx
            },
            _ => tx,
        }
    }

    /// Call-stack pointer after a step, in the field.
    pub open spec fn sp_after(self, op: Opcode) -> u64 {
        if op.pushes_to_call_stack() {
            residue(self.call_sp + 1)
        } else if op.pops_from_call_stack() {
            residue(self.call_sp - 1)
        } else {
            self.call_sp
        }
    }

    /// UTXO allocator after a step.
    pub open spec fn next_utxo_after(self, op: Opcode) -> u32 {
        if op == Opcode::NewUtxo || op == Opcode::SetStorage {
            (self.next_utxo_id + 1) as u32
        } else {
            self.next_utxo_id
        }
    }

    /// Key of the pending constructor after a step.
    pub open spec fn pending_after(self, step: Step) -> Option<(CoroutineId, ResourceHandle)> {
        match step {
            Step::NewUtxo { resource, .. } => Some((self.curr, resource.0)),
            Step::Return { .. } => None,
            _ => self.pending_ctor_key,
        }
    }

    /// The log entry that a step appends.
    pub open spec fn appended_entry(self, step: Step, table: Seq<MethodHash>) -> LogEntry {
        LogEntry {
            owner: self.generation_address(step),
            method_index: index_of(table, step),
            generation: self.generation_read(step),
            ordinal: self.count_of(self.generation_address(step)),
        }
    }

    /// The log after a step.
    pub open spec fn log_after(self, step: Step, table: Seq<MethodHash>) -> Seq<LogEntry> {
        if Opcode::of_step(step).appends_method() {
            self.log.push(self.appended_entry(step, table))
        } else {
            self.log
        }
    }

    /// Address of the log entry that a step writes or selects: an append goes to the
    /// end, a call selects the last registration of the method, and an enumeration
    /// selects the registration with the ordinal that is due. Where there is no such
    /// entry, the address is the end of the log.
    pub open spec fn log_address(self, step: Step, table: Seq<MethodHash>) -> u32 {
        match step {
            Step::RegisterMethod { .. } => self.log.len() as u32,
            Step::PreloadMethod { .. } => self.log.len() as u32,
            Step::CallMethod { .. } => last_registration(
                self.log,
                self.generation_address(step),
                index_of(table, step),
                self.generation_read(step),
                self.log.len() as int,
            ) as u32,
            Step::ReadAbi { .. } => first_entry(
                self.log,
                LogEntry {
                    owner: self.generation_address(step),
                    method_index: index_of(table, step),
                    generation: self.generation_read(step),
                    ordinal: self.tx.abi_read_ordinal,
                },
                0,
            ) as u32,
            _ => 0,
        }
    }

    /// The record of a step taken in this state.
    pub open spec fn record(
        self,
        step: Step,
        table: Seq<MethodHash>,
    ) -> Wit {
        let op = Opcode::of_step(step);
        let target = self.call_target(step);
        let logged = self.generation_address(step);
        Wit {
            tx_before: self.tx,
            tx_after: self.tx_after(step),
            boundary_utxo: self.boundary(op),
            event_owner: self.event_owner(op),
            commitment_before: self.chain_before(op),
            opcode: op,
            expected_arguments: match step {
                Step::SetStorage { storage, .. } => Some(value_limbs(storage)),
                Step::NewUtxo { arguments, .. } => Some(value_limbs(arguments)),
                Step::EnterConstructor { arguments } => Some(value_limbs(arguments)),
                Step::CallMethod { arguments, .. } => Some(value_limbs(arguments)),
                Step::EnterMethod { arguments, .. } => Some(value_limbs(arguments)),
                _ => None,
            },
            method_hash: match method_of(step) {
                Some(method) => Some(method_limbs(method)),
                None => None,
            },
            expected_result: match step {
                Step::GetStorage { storage } => Some(value_limbs(storage.0)),
                Step::Return { result } => Some(value_limbs(result.0)),
                Step::CallMethod { result, .. } => Some(value_limbs(result.0)),
                _ => None,
            },
            method_index: index_of(table, step),
            curr_before: self.curr,
            curr_after: if op.switches_curr() {
                target
            } else {
                self.curr
            },
            curr_phase_before: self.curr_phase,
            curr_phase_after: op.phase_after(self.curr_phase),
            call_sp_before: self.call_sp,
            call_sp_after: self.sp_after(op),
            call_target: target,
            next_utxo_id_before: self.next_utxo_id,
            next_utxo_id_after: self.next_utxo_after(op),
            enabled_method_log_len_before: self.log.len() as u32,
            enabled_method_log_len_after: self.log_after(step, table).len() as u32,
            pending_ctor_key_before: self.pending_ctor_key,
            pending_ctor_key_after: self.pending_after(step),
            resolver_address: match step {
                Step::SetStorage { resource, .. } => (self.curr, resource.0),
                Step::NewUtxo { resource, .. } => (self.curr, resource.0),
                Step::CallMethod { resource, .. } => (self.curr, resource),
                Step::Return { .. } => match self.pending_ctor_key {
                    Some(key) => key,
                    None => (CoroutineId::Coord(0), ResourceHandle(0)),
                },
                _ => (CoroutineId::Coord(0), ResourceHandle(0)),
            },
            resolver_value: match step {
                Step::SetStorage { .. } => self.boundary(op),
                Step::CallMethod { .. } => target,
                Step::Return { .. } => if self.pending_ctor_key is Some {
                    self.curr
                } else {
                    CoroutineId::Coord(0)
                },
                _ => CoroutineId::Coord(0),
            },
            resolver_read: op == Opcode::CallMethod,
            resolver_write: op == Opcode::SetStorage || (op == Opcode::Return
                && self.pending_ctor_key is Some),
            abi_generation_address: logged,
            abi_generation_before: self.generation_read(step),
            abi_generation_after: if op == Opcode::YieldBegin {
                (self.generation_read(step) + 1) as u32
            } else {
                0
            },
            abi_method_count_before: if op.appends_method() || op == Opcode::YieldBegin {
                self.count_of(logged)
            } else if op.scans_output() {
                self.count_of(self.boundary(op))
            } else {
                0
            },
            abi_method_count_after: if op.appends_method() {
                (self.count_of(logged) + 1) as u32
            } else {
                0
            },
            enabled_method_log_address: self.log_address(step, table),
            enabled_method_log_utxo: if op.appends_method() || op == Opcode::CallMethod || op
                == Opcode::ReadAbi {
                logged
            } else {
                CoroutineId::Coord(0)
            },
            enabled_method_log_generation: if op.appends_method() || op == Opcode::CallMethod || op
                == Opcode::ReadAbi {
                self.generation_read(step)
            } else {
                0
            },
        }
    }

    /// The state after a step taken in this state.
    pub open spec fn after(
        self,
        step: Step,
        table: Seq<MethodHash>,
        h: spec_fn([u64; 4], [u64; 8]) -> [u64; 4],
    ) -> ReplayState {
        let op = Opcode::of_step(step);
        let logged = self.generation_address(step);
        ReplayState {
            tx: self.tx_after(step),
            curr: if op.switches_curr() {
                self.call_target(step)
            } else {
                self.curr
            },
            curr_phase: op.phase_after(self.curr_phase),
            callers: if op.pushes_to_call_stack() {
                self.callers.push(self.curr)
            } else if op.pops_from_call_stack() && self.callers.len() > 0 {
                self.callers.drop_last()
            } else {
                self.callers
            },
            call_sp: self.sp_after(op),
            next_utxo_id: self.next_utxo_after(op),
            pending_ctor_key: self.pending_after(step),
            bindings: match step {
                Step::SetStorage { resource, .. } => self.bindings.insert(
                    binding_key(self.curr, resource.0),
                    self.boundary(op),
                ),
                Step::Return { .. } => match self.pending_ctor_key {
                    Some(key) => self.bindings.insert(binding_key(key.0, key.1), self.curr),
                    None => self.bindings,
                },
                _ => self.bindings,
            },
            generations: if op == Opcode::YieldBegin {
                self.generations.insert(
                    self.curr.packed(),
                    (self.generation_of(self.curr) + 1) as u32,
                )
            } else {
                self.generations
            },
            method_counts: if op.appends_method() {
                self.method_counts.insert(logged.packed(), (self.count_of(logged) + 1) as u32)
            } else if op == Opcode::YieldBegin {
                self.method_counts.insert(logged.packed(), 0)
            } else {
                self.method_counts
            },
            log: self.log_after(step, table),
            chains: if op.has_event() {
                self.chains.insert(
                    self.event_owner(op).packed(),
                    extended_by(
                        h,
                        self.chain_before(op),
                        encoding(step),
                        encoding(step).len() as int,
                    ),
                )
            } else {
                self.chains
            },
        }
    }

    /// Counters that a replay of `n` steps keeps at most `n`.
    pub open spec fn counted(self, n: int) -> bool {
        &&& self.next_utxo_id <= n
        &&& self.tx.output_cursor <= n
        &&& self.log.len() <= n
        &&& forall|k: u64| #[trigger]
            self.generations.contains_key(k) ==> self.generations[k] <= n
        &&& forall|k: u64| #[trigger]
            self.method_counts.contains_key(k) ==> self.method_counts[k] <= n
    }
}

/// Index of the method that a step looks up; zero where it looks up none.
pub open spec fn index_of(table: Seq<MethodHash>, step: Step) -> u32 {
    match step {
        Step::RegisterMethod { method } => position_from(table, method, 0) as u32,
        Step::PreloadMethod { method } => position_from(table, method, 0) as u32,
        Step::ReadAbi { method } => position_from(table, method, 0) as u32,
        Step::CallMethod { method, .. } => position_from(table, method, 0) as u32,
        _ => 0,
    }
}

/// State after the first `n` steps.
pub open spec fn state_after(
    steps: Seq<Step>,
    phase: TxPhase,
    h: spec_fn([u64; 4], [u64; 8]) -> [u64; 4],
    n: int,
) -> ReplayState
    decreases n,
{
    if n <= 0 {
        initial_state(phase)
    } else {
        state_after(steps, phase, h, n - 1).after(
            steps[n - 1],
            methods_of(steps, steps.len() as int),
            h,
        )
    }
}

/// The records of the steps of a trace.
pub open spec fn replay(
    steps: Seq<Step>,
    phase: TxPhase,
    h: spec_fn([u64; 4], [u64; 8]) -> [u64; 4],
) -> Seq<Wit> {
    Seq::new(
        steps.len(),
        |i: int|
            state_after(steps, phase, h, i).record(
                steps[i],
                methods_of(steps, steps.len() as int),
            ),
    )
}

/// Counters grow by at most one per step.
pub(crate) proof fn lemma_counted(
    s: ReplayState,
    step: Step,
    table: Seq<MethodHash>,
    h: spec_fn([u64; 4], [u64; 8]) -> [u64; 4],
    n: int,
)
    requires
        s.counted(n),
        0 <= n < u32::MAX,
    ensures
        s.after(step, table, h).counted(n + 1),
{
}

/// Executable state of a replay.
struct Replay {
    tx: TransactionState,
    curr: CoroutineId,
    curr_phase: CurrPhase,
    callers: Vec<CoroutineId>,
    call_sp: u64,
    next_utxo_id: u32,
    pending_ctor_key: Option<(CoroutineId, ResourceHandle)>,
    bindings: HashMap<u128, CoroutineId>,
    generations: HashMap<u64, u32>,
    method_counts: HashMap<u64, u32>,
    log: Vec<LogEntry>,
    chains: HashMap<u64, [u64; 4]>,
}

impl View for Replay {
    type V = ReplayState;

    closed spec fn view(&self) -> ReplayState {
        ReplayState {
            tx: self.tx,
            curr: self.curr,
            curr_phase: self.curr_phase,
            callers: self.callers@,
            call_sp: self.call_sp,
            next_utxo_id: self.next_utxo_id,
            pending_ctor_key: self.pending_ctor_key,
            bindings: self.bindings@,
            generations: self.generations@,
            method_counts: self.method_counts@,
            log: self.log@,
            chains: self.chains@,
        }
    }
}

/// [`value_limbs`] of a value.
fn limbs_of_value(value: &StarstreamValue) -> (limbs: [u64; 8])
    ensures
        limbs == value_limbs(*value),
{
    let words = value.words32();
    [
        words[0] as u64,
        words[1] as u64,
        words[2] as u64,
        words[3] as u64,
        words[4] as u64,
        words[5] as u64,
        words[6] as u64,
        words[7] as u64,
    ]
}

/// [`method_limbs`] of a method.
fn encode_method_hash(method: &MethodHash) -> (limbs: [u64; 8])
    ensures
        limbs == method_limbs(*method),
{
    [
        method.0[0] as u64,
        method.0[1] as u64,
        method.0[2] as u64,
        method.0[3] as u64,
        method.0[4] as u64,
        method.0[5] as u64,
        method.0[6] as u64,
        method.0[7] as u64,
    ]
}

/// [`binding_key`] of a handle.
fn key_of(holder: CoroutineId, handle: ResourceHandle) -> (key: u128)
    ensures
        key == binding_key(holder, handle),
{
    (holder.field() as u128) * 0x1_0000_0000 + (handle.0 as u128)
}

impl Replay {
    fn start(phase: TxPhase) -> (replay: Self)
        ensures
            replay@ == initial_state(phase),
    {
        let replay = Replay {
            tx: TransactionState {
                phase,
                last_input_has_abi: true,
                output_cursor: 0,
                abi_read_remaining: 0,
                abi_read_ordinal: 0,
            },
            curr: CoroutineId::Coord(1),
            curr_phase: CurrPhase::Executing,
            callers: vec![CoroutineId::Coord(0)],
            call_sp: 1,
            next_utxo_id: 0,
            pending_ctor_key: None,
            bindings: HashMap::new(),
            generations: HashMap::new(),
            method_counts: HashMap::new(),
            log: Vec::new(),
            chains: HashMap::new(),
        };
        assert(replay@ =~= initial_state(phase));
        replay
    }

    fn generation(&self, id: CoroutineId) -> (generation: u32)
        ensures
            generation == self@.generation_of(id),
    {
        match self.generations.get(&id.field()) {
            Some(generation) => *generation,
            None => 0,
        }
    }

    fn count(&self, id: CoroutineId) -> (count: u32)
        ensures
            count == self@.count_of(id),
    {
        match self.method_counts.get(&id.field()) {
            Some(count) => *count,
            None => 0,
        }
    }

    fn resolve(&self, handle: ResourceHandle) -> (target: CoroutineId)
        ensures
            target == self@.bound_to(handle),
    {
        match self.bindings.get(&key_of(self.curr, handle)) {
            Some(target) => *target,
            None => CoroutineId::Coord(0),
        }
    }

    fn boundary_utxo(&self, op: Opcode) -> (utxo: CoroutineId)
        ensures
            utxo == self@.boundary(op),
    {
        match op {
            Opcode::SetStorage => CoroutineId::Utxo(self.next_utxo_id),
            Opcode::PreloadMethod => CoroutineId::Utxo(
                if self.next_utxo_id == 0 {
                    0
                } else {
                    self.next_utxo_id - 1
                },
            ),
            Opcode::GetStorage => CoroutineId::Utxo(self.tx.output_cursor),
            Opcode::SkipConsumed => CoroutineId::Utxo(self.tx.output_cursor),
            Opcode::ReadAbi => CoroutineId::Utxo(
                if self.tx.output_cursor == 0 {
                    0
                } else {
                    self.tx.output_cursor - 1
                },
            ),
            _ => CoroutineId::Coord(0),
        }
    }

    /// Address of the first log entry that equals `entry`.
    fn find_entry(&self, entry: LogEntry) -> (address: usize)
        ensures
            address == first_entry(self@.log, entry, 0),
            address <= self@.log.len(),
    {
        let mut i: usize = 0;
        while i < self.log.len() && self.log[i] != entry
            invariant
                i <= self.log@.len(),
                first_entry(self.log@, entry, 0) == first_entry(self.log@, entry, i as int),
            decreases self.log@.len() - i,
        {
            i = i + 1;
        }
        i
    }

    /// Address of the last log entry that registers a method.
    fn find_registration(&self, owner: CoroutineId, method_index: u32, generation: u32) -> (address:
        usize)
        ensures
            address == last_registration(
                self@.log,
                owner,
                method_index,
                generation,
                self@.log.len() as int,
            ),
            address <= self@.log.len(),
    {
        let mut n: usize = self.log.len();
        while n > 0
            invariant
                n <= self.log@.len(),
                last_registration(
                    self.log@,
                    owner,
                    method_index,
                    generation,
                    self.log@.len() as int,
                ) == last_registration(self.log@, owner, method_index, generation, n as int),
            decreases n,
        {
            let entry = self.log[n - 1];
            if entry.owner == owner && entry.method_index == method_index && entry.generation
                == generation {
                return n - 1;
            }
            n = n - 1;
        }
        self.log.len()
    }

    /// Take a step.
    fn advance<C: Fn([u64; 4], [u64; 8]) -> [u64; 4]>(
        &mut self,
        step: &Step,
        table: &Vec<MethodHash>,
        compress: &C,
        Ghost(n): Ghost<int>,
    ) -> (wit: Wit)
        requires
            is_compression(*compress),
            old(self)@.counted(n),
            0 <= n < u32::MAX,
            table@.len() <= u32::MAX,
        ensures
            wit == old(self)@.record(*step, table@),
            final(self)@ == old(self)@.after(*step, table@, compression_of(*compress)),
    {
        let ghost before = self@;
        let ghost h = compression_of(*compress);
        let opcode = Opcode::from(step);
        let tx_before = self.tx;
        let curr_before = self.curr;
        let curr_phase_before = self.curr_phase;
        let call_sp_before = self.call_sp;
        let next_utxo_id_before = self.next_utxo_id;
        let pending_ctor_key_before = self.pending_ctor_key;
        let boundary_utxo = self.boundary_utxo(opcode);
        let enabled_method_log_len_before = self.log.len() as u32;
        if opcode.is_execution() {
            self.tx.phase = TxPhase::Running;
        }
        let event_owner = if opcode == Opcode::SetStorage || opcode == Opcode::GetStorage {
            boundary_utxo
        } else if opcode.has_event() {
            curr_before
        } else {
            CoroutineId::Coord(0)
        };
        let mut commitment_before = ZERO_CHAIN;
        if opcode.has_event() {
            if let Some(chain) = self.chains.get(&event_owner.field()) {
                commitment_before = *chain;
            }
            let blocks = encode(step);
            let mut chain = commitment_before;
            let mut b: usize = 0;
            while b < blocks.len()
                invariant
                    is_compression(*compress),
                    h == compression_of(*compress),
                    blocks@ == encoding(*step),
                    b <= blocks@.len(),
                    chain == extended_by(h, commitment_before, encoding(*step), b as int),
                decreases blocks@.len() - b,
            {
                chain = commit_block(chain, blocks[b], compress);
                b = b + 1;
            }
            self.chains.insert(event_owner.field(), chain);
        }
        assert(self@.chains == before.after(*step, table@, h).chains);
        self.curr_phase = opcode.phase_after(curr_phase_before);
        self.call_sp = if opcode.pushes_to_call_stack() {
            field_add(call_sp_before, 1)
        } else if opcode.pops_from_call_stack() {
            field_sub(call_sp_before, 1)
        } else {
            call_sp_before
        };

        let mut expected_arguments: Option<[u64; 8]> = None;
        let mut method_hash: Option<[u64; 8]> = None;
        let mut expected_result: Option<[u64; 8]> = None;
        let mut method_index: u32 = 0;
        let mut curr_after = curr_before;
        let mut call_target = CoroutineId::Coord(0);
        let mut resolver_address = (CoroutineId::Coord(0), ResourceHandle(0));
        let mut resolver_value = CoroutineId::Coord(0);
        let mut resolver_read = false;
        let mut resolver_write = false;
        let mut abi_generation_address = CoroutineId::Coord(0);
        let mut abi_generation_before: u32 = 0;
        let mut abi_generation_after: u32 = 0;
        let mut enabled_method_log_address: u32 = 0;
        let mut enabled_method_log_utxo = CoroutineId::Coord(0);
        let mut enabled_method_log_generation: u32 = 0;
        let mut abi_method_count_before: u32 = 0;
        let mut abi_method_count_after: u32 = 0;

        match *step {
            Step::ReadAbi { method } => {
                method_hash = Some(encode_method_hash(&method));
                method_index = method_position(table, &method) as u32;
                abi_generation_address = boundary_utxo;
                abi_generation_before = self.generation(boundary_utxo);
                enabled_method_log_utxo = boundary_utxo;
                enabled_method_log_generation = abi_generation_before;
                enabled_method_log_address = self.find_entry(
                    LogEntry {
                        owner: boundary_utxo,
                        method_index,
                        generation: abi_generation_before,
                        ordinal: self.tx.abi_read_ordinal,
                    },
                ) as u32;
                self.tx.abi_read_ordinal = self.tx.abi_read_ordinal.wrapping_add(1);
                self.tx.abi_read_remaining = self.tx.abi_read_remaining.wrapping_sub(1);
            },
            Step::SetStorage { storage, resource } => {
                expected_arguments = Some(limbs_of_value(&storage));
                self.next_utxo_id = next_utxo_id_before + 1;
                resolver_address = (curr_before, resource.0);
                resolver_value = boundary_utxo;
                resolver_write = true;
                self.bindings.insert(key_of(curr_before, resource.0), boundary_utxo);
                self.tx.last_input_has_abi = false;
            },
            Step::FinishTransaction => {
                self.tx.phase = TxPhase::Finished;
            },
            Step::GetStorage { storage } => {
                abi_method_count_before = self.count(boundary_utxo);
                self.tx.abi_read_remaining = abi_method_count_before;
                self.tx.abi_read_ordinal = 0;
                expected_result = Some(limbs_of_value(&storage.0));
                self.tx.output_cursor = self.tx.output_cursor + 1;
            },
            Step::SkipConsumed => {
                abi_method_count_before = self.count(boundary_utxo);
                self.tx.output_cursor = self.tx.output_cursor + 1;
            },
            Step::NewUtxo { arguments, resource } => {
                expected_arguments = Some(limbs_of_value(&arguments));
                let target = CoroutineId::Utxo(next_utxo_id_before);
                self.next_utxo_id = next_utxo_id_before + 1;
                self.callers.push(curr_before);
                self.pending_ctor_key = Some((curr_before, resource.0));
                curr_after = target;
                call_target = target;
                resolver_address = (curr_before, resource.0);
            },
            Step::EnterConstructor { arguments } => {
                expected_arguments = Some(limbs_of_value(&arguments));
            },
            Step::YieldBegin => {
                abi_generation_address = curr_before;
                abi_generation_before = self.generation(curr_before);
                abi_generation_after = abi_generation_before + 1;
                self.generations.insert(curr_before.field(), abi_generation_after);
                abi_method_count_before = self.count(curr_before);
                self.method_counts.insert(curr_before.field(), 0);
            },
            Step::RegisterMethod { method } => {
                method_hash = Some(encode_method_hash(&method));
                method_index = method_position(table, &method) as u32;
                abi_generation_address = curr_before;
            },
            Step::PreloadMethod { method } => {
                method_hash = Some(encode_method_hash(&method));
                method_index = method_position(table, &method) as u32;
                abi_generation_address = boundary_utxo;
                self.tx.last_input_has_abi = true;
            },
            Step::Return { result } => {
                expected_result = Some(limbs_of_value(&result.0));
                if let Some(key) = pending_ctor_key_before {
                    self.bindings.insert(key_of(key.0, key.1), curr_before);
                    resolver_address = key;
                    resolver_value = curr_before;
                    resolver_write = true;
                }
                self.pending_ctor_key = None;
                // A return with no frame left still gives a record: the range of the
                // call-stack pointer rejects the underflow.
                let target = match self.callers.pop() {
                    Some(caller) => caller,
                    None => CoroutineId::Coord(0),
                };
                curr_after = target;
                call_target = target;
            },
            Step::CallMethod { resource, method, arguments, result } => {
                expected_arguments = Some(limbs_of_value(&arguments));
                method_hash = Some(encode_method_hash(&method));
                expected_result = Some(limbs_of_value(&result.0));
                method_index = method_position(table, &method) as u32;
                let target = self.resolve(resource);
                self.callers.push(curr_before);
                curr_after = target;
                call_target = target;
                resolver_address = (curr_before, resource);
                resolver_value = target;
                resolver_read = true;
                abi_generation_address = target;
                abi_generation_before = self.generation(target);
                enabled_method_log_utxo = target;
                enabled_method_log_generation = abi_generation_before;
                enabled_method_log_address = self.find_registration(
                    target,
                    method_index,
                    abi_generation_before,
                ) as u32;
            },
            Step::EnterMethod { method, arguments } => {
                expected_arguments = Some(limbs_of_value(&arguments));
                method_hash = Some(encode_method_hash(&method));
            },
        }
        if opcode.appends_method() {
            abi_generation_before = self.generation(abi_generation_address);
            abi_method_count_before = self.count(abi_generation_address);
            abi_method_count_after = abi_method_count_before + 1;
            enabled_method_log_address = enabled_method_log_len_before;
            enabled_method_log_utxo = abi_generation_address;
            enabled_method_log_generation = abi_generation_before;
            self.log.push(
                LogEntry {
                    owner: abi_generation_address,
                    method_index,
                    generation: abi_generation_before,
                    ordinal: abi_method_count_before,
                },
            );
            self.method_counts.insert(abi_generation_address.field(), abi_method_count_after);
        }
        self.curr = curr_after;
        proof {
            assert(self@ =~= before.after(*step, table@, h));
        }
        Wit {
            tx_before,
            tx_after: self.tx,
            boundary_utxo,
            event_owner,
            commitment_before,
            opcode,
            expected_arguments,
            method_hash,
            expected_result,
            method_index,
            curr_before,
            curr_after,
            curr_phase_before,
            curr_phase_after: self.curr_phase,
            call_sp_before,
            call_sp_after: self.call_sp,
            call_target,
            next_utxo_id_before,
            next_utxo_id_after: self.next_utxo_id,
            enabled_method_log_len_before,
            enabled_method_log_len_after: self.log.len() as u32,
            pending_ctor_key_before,
            pending_ctor_key_after: self.pending_ctor_key,
            resolver_address,
            resolver_value,
            resolver_read,
            resolver_write,
            abi_generation_address,
            abi_generation_before,
            abi_generation_after,
            abi_method_count_before,
            abi_method_count_after,
            enabled_method_log_address,
            enabled_method_log_utxo,
            enabled_method_log_generation,
        }
    }
}

/// Replay an execution: no input is loaded and no output is exported.
pub fn normalize<C: Fn([u64; 4], [u64; 8]) -> [u64; 4]>(trace: &Trace, compress: &C) -> (normalized:
    NormalizedTrace)
    requires
        is_compression(*compress),
        trace.0@.len() <= u32::MAX,
    ensures
        normalized.steps@ == replay(trace.0@, TxPhase::Running, compression_of(*compress)),
        normalized.method_table@ == methods_of(trace.0@, trace.0@.len() as int),
{
    normalize_with_phase(trace, TxPhase::Running, compress)
}

/// Replay a trace that starts in the given transaction phase.
pub fn normalize_with_phase<C: Fn([u64; 4], [u64; 8]) -> [u64; 4]>(
    trace: &Trace,
    phase: TxPhase,
    compress: &C,
) -> (normalized: NormalizedTrace)
    requires
        is_compression(*compress),
        trace.0@.len() <= u32::MAX,
    ensures
        normalized.steps@ == replay(trace.0@, phase, compression_of(*compress)),
        normalized.method_table@ == methods_of(trace.0@, trace.0@.len() as int),
{
    let ghost steps = trace.0@;
    let ghost h = compression_of(*compress);
    let table = method_table(&trace.0);
    proof {
        crate::method_table::law_method_table_is_sorted_set(steps, steps.len() as int);
    }
    let mut replay_state = Replay::start(phase);
    let mut wit: Vec<Wit> = Vec::new();
    let mut i: usize = 0;
    while i < trace.0.len()
        invariant
            is_compression(*compress),
            h == compression_of(*compress),
            steps == trace.0@,
            steps.len() <= u32::MAX,
            table@ == methods_of(steps, steps.len() as int),
            table@.len() <= u32::MAX,
            i <= steps.len(),
            replay_state@ == state_after(steps, phase, h, i as int),
            replay_state@.counted(i as int),
            wit@.len() == i,
            forall|j: int|
                0 <= j < i ==> #[trigger] wit@[j] == state_after(steps, phase, h, j).record(
                    steps[j],
                    table@,
                ),
        decreases steps.len() - i,
    {
        proof {
            lemma_counted(replay_state@, steps[i as int], table@, h, i as int);
        }
        let record = replay_state.advance(&trace.0[i], &table, compress, Ghost(i as int));
        wit.push(record);
        i = i + 1;
    }
    assert(wit@ =~= replay(steps, phase, h));
    NormalizedTrace { steps: wit, method_table: table }
}

impl Wit {
    /// The record of padding after this one: a fixed point of the carried state,
    /// with inactive buses zero.
    pub open spec fn padding(self) -> Wit {
        let zero = CoroutineId::Coord(0);
        Wit {
            tx_before: self.tx_after,
            tx_after: self.tx_after,
            boundary_utxo: zero,
            event_owner: zero,
            commitment_before: ZERO_CHAIN,
            opcode: Opcode::Padding,
            expected_arguments: None,
            method_hash: None,
            expected_result: None,
            method_index: 0,
            curr_before: self.curr_after,
            curr_after: self.curr_after,
            curr_phase_before: self.curr_phase_after,
            curr_phase_after: self.curr_phase_after,
            call_sp_before: self.call_sp_after,
            call_sp_after: self.call_sp_after,
            call_target: zero,
            next_utxo_id_before: self.next_utxo_id_after,
            next_utxo_id_after: self.next_utxo_id_after,
            enabled_method_log_len_before: self.enabled_method_log_len_after,
            enabled_method_log_len_after: self.enabled_method_log_len_after,
            pending_ctor_key_before: self.pending_ctor_key_after,
            pending_ctor_key_after: self.pending_ctor_key_after,
            resolver_address: (zero, ResourceHandle(0)),
            resolver_value: zero,
            resolver_read: false,
            resolver_write: false,
            abi_generation_address: zero,
            abi_generation_before: 0,
            abi_generation_after: 0,
            abi_method_count_before: 0,
            abi_method_count_after: 0,
            enabled_method_log_address: 0,
            enabled_method_log_utxo: zero,
            enabled_method_log_generation: 0,
        }
    }

    /// The record of padding after this one.
    pub fn padding_after(&self) -> (wit: Wit)
        ensures
            wit == self.padding(),
    {
        let zero = CoroutineId::Coord(0);
        Wit {
            tx_before: self.tx_after,
            tx_after: self.tx_after,
            boundary_utxo: zero,
            event_owner: zero,
            commitment_before: ZERO_CHAIN,
            opcode: Opcode::Padding,
            expected_arguments: None,
            method_hash: None,
            expected_result: None,
            method_index: 0,
            curr_before: self.curr_after,
            curr_after: self.curr_after,
            curr_phase_before: self.curr_phase_after,
            curr_phase_after: Opcode::Padding.phase_after(self.curr_phase_after),
            call_sp_before: self.call_sp_after,
            call_sp_after: self.call_sp_after,
            call_target: zero,
            next_utxo_id_before: self.next_utxo_id_after,
            next_utxo_id_after: self.next_utxo_id_after,
            enabled_method_log_len_before: self.enabled_method_log_len_after,
            enabled_method_log_len_after: self.enabled_method_log_len_after,
            pending_ctor_key_before: self.pending_ctor_key_after,
            pending_ctor_key_after: self.pending_ctor_key_after,
            resolver_address: (zero, ResourceHandle(0)),
            resolver_value: zero,
            resolver_read: false,
            resolver_write: false,
            abi_generation_address: zero,
            abi_generation_before: 0,
            abi_generation_after: 0,
            abi_method_count_before: 0,
            abi_method_count_after: 0,
            enabled_method_log_address: 0,
            enabled_method_log_utxo: zero,
            enabled_method_log_generation: 0,
        }
    }
}

} // verus!
