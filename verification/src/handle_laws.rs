//! Resource handles are names: what matters is where the calls through them go.

use vstd::prelude::*;

use crate::abi_laws::registered;
use crate::chain_laws::{blocks_of, emits, owner_at};
use crate::compression::{
    collides, extended_by, law_chains_tell_blocks_apart, reduced4, reduced8, ZERO_CHAIN,
};
use crate::events::{encoding, EventKind};
use crate::field::FIELD_MODULUS;
use crate::frame_memory::frames;
use crate::ivc_state::{CoroutineId, TxPhase};
use crate::legality::legal;
use crate::method_table::{method_of, methods_of};
use crate::opcode::Opcode;
use crate::protocol::{allowed, has_roots, keeps_protocol, law_check_is_the_protocol};
use crate::record_bounds::fits;
use crate::statement_laws::{io_of, visited};
use crate::step::{
    binding_key, law_bindings_have_distinct_keys, replay, state_after, ReplayState, Wit,
};
use crate::trace::{MethodHash, Out, ResourceHandle, Step, Trace, TransactionStatement};
use crate::verify::trace_outcome;

verus! {

/// What a handle of a coroutine is bound to.
pub open spec fn binding(
    state: ReplayState,
    holder: CoroutineId,
    handle: ResourceHandle,
) -> Option<CoroutineId> {
    let key = binding_key(holder, handle);
    if state.bindings.contains_key(key) {
        Some(state.bindings[key])
    } else {
        None
    }
}

/// A step changes the binding that its record says, and no other.
proof fn lemma_binding_after(
    steps: Seq<Step>,
    phase: TxPhase,
    h: spec_fn([u64; 4], [u64; 8]) -> [u64; 4],
    n: int,
    holder: CoroutineId,
    handle: ResourceHandle,
)
    requires
        0 <= n < steps.len(),
    ensures
        ({
            let w = replay(steps, phase, h)[n];
            binding(state_after(steps, phase, h, n + 1), holder, handle) == if w.resolver_write
                && w.resolver_address == (holder, handle) {
                Some(w.resolver_value)
            } else {
                binding(state_after(steps, phase, h, n), holder, handle)
            }
        }),
{
    let w = replay(steps, phase, h)[n];
    law_bindings_have_distinct_keys(holder, handle, w.resolver_address.0, w.resolver_address.1);
}

/// What the last of the first `n` steps that binds a handle of a coroutine binds it to.
pub open spec fn last_binding(
    steps: Seq<Step>,
    phase: TxPhase,
    h: spec_fn([u64; 4], [u64; 8]) -> [u64; 4],
    holder: CoroutineId,
    handle: ResourceHandle,
    n: int,
) -> Option<CoroutineId>
    decreases n,
{
    if n <= 0 {
        None
    } else {
        let w = replay(steps, phase, h)[n - 1];
        if w.resolver_write && w.resolver_address == (holder, handle) {
            Some(w.resolver_value)
        } else {
            last_binding(steps, phase, h, holder, handle, n - 1)
        }
    }
}

proof fn lemma_last_binding(
    steps: Seq<Step>,
    phase: TxPhase,
    h: spec_fn([u64; 4], [u64; 8]) -> [u64; 4],
    holder: CoroutineId,
    handle: ResourceHandle,
    n: int,
)
    requires
        0 <= n <= steps.len(),
    ensures
        binding(state_after(steps, phase, h, n), holder, handle) == last_binding(
            steps,
            phase,
            h,
            holder,
            handle,
            n,
        ),
    decreases n,
{
    if n > 0 {
        lemma_last_binding(steps, phase, h, holder, handle, n - 1);
        lemma_binding_after(steps, phase, h, n - 1, holder, handle);
    }
}

/// A call of a replay goes to what its handle was bound to last, and to the first
/// coordinator where it was never bound. Only the loading of an input and the return of a
/// constructor bind a handle: that of a constructor is unbound until it returns.
pub proof fn law_calls_go_to_the_last_binding(
    steps: Seq<Step>,
    phase: TxPhase,
    h: spec_fn([u64; 4], [u64; 8]) -> [u64; 4],
    i: int,
)
    requires
        0 <= i < steps.len(),
    ensures
        ({
            let w = replay(steps, phase, h)[i];
            &&& w.resolver_write <==> steps[i] is SetStorage || (steps[i] is Return
                && w.pending_ctor_key_before is Some)
            &&& steps[i] matches Step::CallMethod { resource, .. } ==> {
                let target = match last_binding(steps, phase, h, w.curr_before, resource, i) {
                    Some(id) => id,
                    None => CoroutineId::Coord(0),
                };
                w.call_target == target && w.curr_after == target && w.resolver_value == target
            }
        }),
{
    if let Step::CallMethod { resource, .. } = steps[i] {
        lemma_last_binding(
            steps,
            phase,
            h,
            state_after(steps, phase, h, i).curr,
            resource,
            i,
        );
    }
}

/// The handle that a step names.
pub open spec fn handle_named(step: Step) -> Option<ResourceHandle> {
    match step {
        Step::SetStorage { resource, .. } => Some(resource.0),
        Step::NewUtxo { resource, .. } => Some(resource.0),
        Step::CallMethod { resource, .. } => Some(resource),
        _ => None,
    }
}

/// A step with another handle in place of the one that it names.
pub open spec fn with_handle(step: Step, handle: ResourceHandle) -> Step {
    match step {
        Step::SetStorage { storage, .. } => Step::SetStorage { storage, resource: Out(handle) },
        Step::NewUtxo { arguments, .. } => Step::NewUtxo { arguments, resource: Out(handle) },
        Step::CallMethod { method, arguments, result, .. } => Step::CallMethod {
            resource: handle,
            method,
            arguments,
            result,
        },
        _ => step,
    }
}

/// Whether two steps differ in their handles at most.
pub open spec fn alike(a: Step, b: Step) -> bool {
    with_handle(a, ResourceHandle(0)) == with_handle(b, ResourceHandle(0))
}

/// Whether step `i` of two traces, where it is a call, goes to the same coroutine.
pub open spec fn goes_alike(
    a: Seq<Step>,
    b: Seq<Step>,
    phase: TxPhase,
    h: spec_fn([u64; 4], [u64; 8]) -> [u64; 4],
    i: int,
) -> bool {
    a[i] is CallMethod ==> state_after(a, phase, h, i).bound_to(handle_named(a[i])->0)
        == state_after(b, phase, h, i).bound_to(handle_named(b[i])->0)
}

/// Whether two pending constructors were started by the same coroutine.
spec fn same_holder(
    a: Option<(CoroutineId, ResourceHandle)>,
    b: Option<(CoroutineId, ResourceHandle)>,
) -> bool {
    &&& a is Some <==> b is Some
    &&& a matches Some(x) ==> (b matches Some(y) && x.0 == y.0)
}

/// Whether two states differ in bindings, chains and the handle of a pending constructor at
/// most.
spec fn agree(a: ReplayState, b: ReplayState) -> bool {
    &&& a.tx == b.tx
    &&& a.curr == b.curr
    &&& a.curr_phase == b.curr_phase
    &&& a.callers == b.callers
    &&& a.call_sp == b.call_sp
    &&& a.next_utxo_id == b.next_utxo_id
    &&& same_holder(a.pending_ctor_key, b.pending_ctor_key)
    &&& a.generations == b.generations
    &&& a.method_counts == b.method_counts
    &&& a.log == b.log
}

/// Steps that are alike keep states in agreement.
proof fn lemma_agree_after(
    a: ReplayState,
    b: ReplayState,
    x: Step,
    y: Step,
    table: Seq<MethodHash>,
    h: spec_fn([u64; 4], [u64; 8]) -> [u64; 4],
)
    requires
        agree(a, b),
        alike(x, y),
        x is CallMethod ==> a.bound_to(handle_named(x)->0) == b.bound_to(handle_named(y)->0),
    ensures
        agree(a.after(x, table, h), b.after(y, table, h)),
{
    assert(Opcode::of_step(x) == Opcode::of_step(y));
    assert(a.call_target(x) == b.call_target(y));
    assert(a.generation_address(x) == b.generation_address(y));
    assert(a.generation_read(x) == b.generation_read(y));
    assert(a.tx_after(x) == b.tx_after(y));
    assert(a.log_after(x, table) == b.log_after(y, table));
}

/// Traces that are alike have the same methods.
proof fn lemma_same_methods(a: Seq<Step>, b: Seq<Step>, n: int)
    requires
        0 <= n <= a.len(),
        a.len() == b.len(),
        forall|i: int| 0 <= i < n ==> alike(#[trigger] a[i], b[i]),
    ensures
        methods_of(a, n) == methods_of(b, n),
    decreases n,
{
    if n > 0 {
        lemma_same_methods(a, b, n - 1);
        assert(alike(a[n - 1], b[n - 1]));
        assert(method_of(a[n - 1]) == method_of(b[n - 1]));
    }
}

/// One step keeps the states of traces that are alike in agreement.
proof fn lemma_agree_step(
    a: Seq<Step>,
    b: Seq<Step>,
    phase: TxPhase,
    h: spec_fn([u64; 4], [u64; 8]) -> [u64; 4],
    n: int,
)
    requires
        0 <= n < a.len(),
        a.len() == b.len(),
        forall|i: int| 0 <= i < a.len() ==> alike(#[trigger] a[i], b[i]),
        agree(state_after(a, phase, h, n), state_after(b, phase, h, n)),
        goes_alike(a, b, phase, h, n),
    ensures
        agree(state_after(a, phase, h, n + 1), state_after(b, phase, h, n + 1)),
{
    lemma_same_methods(a, b, a.len() as int);
    assert(alike(a[n], b[n]));
    lemma_agree_after(
        state_after(a, phase, h, n),
        state_after(b, phase, h, n),
        a[n],
        b[n],
        methods_of(a, a.len() as int),
        h,
    );
}

/// The states of traces that are alike agree, as long as the calls go alike.
proof fn lemma_states_agree(
    a: Seq<Step>,
    b: Seq<Step>,
    phase: TxPhase,
    h: spec_fn([u64; 4], [u64; 8]) -> [u64; 4],
    n: int,
)
    requires
        0 <= n <= a.len(),
        a.len() == b.len(),
        forall|i: int| 0 <= i < a.len() ==> alike(#[trigger] a[i], b[i]),
        forall|i: int| 0 <= i < n ==> #[trigger] goes_alike(a, b, phase, h, i),
    ensures
        agree(state_after(a, phase, h, n), state_after(b, phase, h, n)),
    decreases n,
{
    if n > 0 {
        lemma_states_agree(a, b, phase, h, n - 1);
        assert(goes_alike(a, b, phase, h, n - 1));
        lemma_agree_step(a, b, phase, h, n - 1);
    }
}

/// Whether two records differ in chains and handles at most.
spec fn akin(v: Wit, w: Wit) -> bool {
    &&& v == (Wit {
        commitment_before: v.commitment_before,
        resolver_address: (w.resolver_address.0, v.resolver_address.1),
        pending_ctor_key_before: v.pending_ctor_key_before,
        pending_ctor_key_after: v.pending_ctor_key_after,
        ..w
    })
    &&& same_holder(v.pending_ctor_key_before, w.pending_ctor_key_before)
    &&& same_holder(v.pending_ctor_key_after, w.pending_ctor_key_after)
}

/// What a replay does with the handle of a pending constructor.
spec fn keeps_handle(w: Wit) -> bool {
    &&& w.opcode == Opcode::NewUtxo ==> w.pending_ctor_key_after == Some(
        (w.curr_before, w.resolver_address.1),
    )
    &&& w.opcode == Opcode::Return ==> w.pending_ctor_key_after is None && (
    w.pending_ctor_key_before is Some ==> w.pending_ctor_key_before == Some(w.resolver_address))
    &&& w.opcode != Opcode::NewUtxo && w.opcode != Opcode::Return ==> w.pending_ctor_key_after
        == w.pending_ctor_key_before
}

/// Records that are akin keep the same rules, within the same bounds.
proof fn lemma_akin(v: Wit, w: Wit)
    requires
        akin(v, w),
        keeps_handle(v),
        keeps_handle(w),
    ensures
        legal(v) <==> legal(w),
        fits(v) <==> fits(w),
{
}

/// Steps that are alike have akin records in states that agree.
proof fn lemma_records_akin(
    a: ReplayState,
    b: ReplayState,
    x: Step,
    y: Step,
    table: Seq<MethodHash>,
)
    requires
        agree(a, b),
        alike(x, y),
        x is CallMethod ==> a.bound_to(handle_named(x)->0) == b.bound_to(handle_named(y)->0),
    ensures
        akin(a.record(x, table), b.record(y, table)),
        keeps_handle(a.record(x, table)),
        keeps_handle(b.record(y, table)),
{
    assert(Opcode::of_step(x) == Opcode::of_step(y));
    assert(a.call_target(x) == b.call_target(y));
    assert(a.generation_address(x) == b.generation_address(y));
    assert(a.generation_read(x) == b.generation_read(y));
    assert(a.tx_after(x) == b.tx_after(y));
    assert(a.log_after(x, table) == b.log_after(y, table));
    assert(a.log_address(x, table) == b.log_address(y, table));
}

/// Frames, registrations, inputs and outputs of traces that are alike are the same.
proof fn lemma_same_histories(
    a: Seq<Step>,
    b: Seq<Step>,
    phase: TxPhase,
    h: spec_fn([u64; 4], [u64; 8]) -> [u64; 4],
    owner: CoroutineId,
    n: int,
)
    requires
        0 <= n <= a.len(),
        a.len() == b.len(),
        forall|i: int| 0 <= i < a.len() ==> alike(#[trigger] a[i], b[i]),
        forall|i: int| 0 <= i < n ==> #[trigger] goes_alike(a, b, phase, h, i),
    ensures
        frames(a, phase, h, n) == frames(b, phase, h, n),
        registered(a, phase, h, owner, n) == registered(b, phase, h, owner, n),
        visited(a, n) == visited(b, n),
        io_of(a, n) == io_of(b, n),
    decreases n,
{
    if n > 0 {
        lemma_same_histories(a, b, phase, h, owner, n - 1);
        lemma_states_agree(a, b, phase, h, n - 1);
        assert(alike(a[n - 1], b[n - 1]));
    }
}

/// A step of one of two traces that are alike keeps the protocol where that of the other
/// does.
proof fn lemma_keeps_alike(
    a: Seq<Step>,
    b: Seq<Step>,
    phase: TxPhase,
    h: spec_fn([u64; 4], [u64; 8]) -> [u64; 4],
    j: int,
)
    requires
        0 <= j < a.len(),
        a.len() == b.len(),
        forall|i: int| 0 <= i < a.len() ==> alike(#[trigger] a[i], b[i]),
        forall|i: int| 0 <= i < a.len() ==> #[trigger] goes_alike(a, b, phase, h, i),
    ensures
        keeps_protocol(a, phase, h, j) <==> keeps_protocol(b, phase, h, j),
{
    let s = state_after(a, phase, h, j);
    let t = state_after(b, phase, h, j);
    let table = methods_of(a, a.len() as int);
    assert(alike(a[j], b[j]));
    assert(goes_alike(a, b, phase, h, j));
    lemma_states_agree(a, b, phase, h, j);
    lemma_same_methods(a, b, a.len() as int);
    lemma_records_akin(s, t, a[j], b[j], table);
    lemma_akin(s.record(a[j], table), t.record(b[j], table));
    lemma_same_histories(a, b, phase, h, s.boundary(Opcode::ReadAbi), j);
    if a[j] is CallMethod {
        lemma_same_histories(a, b, phase, h, s.bound_to(handle_named(a[j])->0), j);
    }
}

/// Handles are names: of two traces that differ in handles at most, and whose calls go to
/// the same coroutines, each with its own roots, the protocol allows one where it allows the
/// other, with the same statement.
pub proof fn law_handles_are_names(
    a: Seq<Step>,
    b: Seq<Step>,
    phase: TxPhase,
    roots_a: Map<u32, [u64; 4]>,
    roots_b: Map<u32, [u64; 4]>,
    statement: Option<TransactionStatement>,
    h: spec_fn([u64; 4], [u64; 8]) -> [u64; 4],
)
    requires
        a.len() == b.len(),
        forall|i: int| 0 <= i < a.len() ==> alike(#[trigger] a[i], b[i]),
        forall|i: int| 0 <= i < a.len() ==> #[trigger] goes_alike(a, b, phase, h, i),
        has_roots(a, phase, h, roots_a),
        has_roots(b, phase, h, roots_b),
    ensures
        forall|j: int|
            0 <= j < a.len() ==> (#[trigger] keeps_protocol(a, phase, h, j) <==> keeps_protocol(
                b,
                phase,
                h,
                j,
            )),
        allowed(a, phase, Some(roots_a), statement, h) <==> allowed(
            b,
            phase,
            Some(roots_b),
            statement,
            h,
        ),
{
    let n = a.len() as int;
    assert forall|j: int| 0 <= j < n implies (#[trigger] keeps_protocol(a, phase, h, j)
        <==> keeps_protocol(b, phase, h, j)) by {
        lemma_keeps_alike(a, b, phase, h, j);
    }
    if forall|j: int| 0 <= j < n ==> #[trigger] keeps_protocol(a, phase, h, j) {
        assert forall|j: int| 0 <= j < n implies #[trigger] keeps_protocol(b, phase, h, j) by {
            assert(keeps_protocol(a, phase, h, j));
        }
    }
    lemma_states_agree(a, b, phase, h, n);
    lemma_same_histories(a, b, phase, h, CoroutineId::Coord(0), n);
}

/// Whether the binding that step `s` makes is still in force after the first `n` steps.
pub open spec fn in_force(
    steps: Seq<Step>,
    phase: TxPhase,
    h: spec_fn([u64; 4], [u64; 8]) -> [u64; 4],
    s: int,
    n: int,
) -> bool {
    let records = replay(steps, phase, h);
    forall|k: int|
        s < k < n ==> !((#[trigger] records[k]).resolver_write && records[k].resolver_address
            == records[s].resolver_address)
}

/// Whether step `i` is a call through the binding that step `s` makes.
pub open spec fn calls_through(
    steps: Seq<Step>,
    phase: TxPhase,
    h: spec_fn([u64; 4], [u64; 8]) -> [u64; 4],
    s: int,
    i: int,
) -> bool {
    &&& s < i
    &&& steps[i] is CallMethod
    &&& replay(steps, phase, h)[i].resolver_address == replay(steps, phase, h)[s].resolver_address
    &&& in_force(steps, phase, h, s, i)
}

/// Whether trace `b` is trace `a` with another handle for the input that step `s` loads: in
/// that step and in the calls through it stands `handle`, which `a` does not use.
pub open spec fn renames_input(
    a: Seq<Step>,
    b: Seq<Step>,
    phase: TxPhase,
    h: spec_fn([u64; 4], [u64; 8]) -> [u64; 4],
    s: int,
    handle: ResourceHandle,
) -> bool {
    &&& 0 <= s < a.len()
    &&& a[s] is SetStorage
    &&& a.len() == b.len()
    &&& forall|i: int| 0 <= i < a.len() ==> handle_named(#[trigger] a[i]) != Some(handle)
    &&& forall|i: int|
        0 <= i < a.len() ==> #[trigger] b[i] == if i == s || calls_through(a, phase, h, s, i) {
            with_handle(a[i], handle)
        } else {
            a[i]
        }
}

/// A renamed trace is alike.
proof fn lemma_renamed_alike(
    a: Seq<Step>,
    b: Seq<Step>,
    phase: TxPhase,
    h: spec_fn([u64; 4], [u64; 8]) -> [u64; 4],
    s: int,
    handle: ResourceHandle,
)
    requires
        renames_input(a, b, phase, h, s, handle),
    ensures
        forall|i: int| 0 <= i < a.len() ==> alike(#[trigger] a[i], b[i]),
{
    assert forall|i: int| 0 <= i < a.len() implies alike(#[trigger] a[i], b[i]) by {
        assert(b[i] == a[i] || b[i] == with_handle(a[i], handle));
    }
}

/// A pending constructor has a handle that the trace uses.
proof fn lemma_pending_used(
    steps: Seq<Step>,
    phase: TxPhase,
    h: spec_fn([u64; 4], [u64; 8]) -> [u64; 4],
    handle: ResourceHandle,
    n: int,
)
    requires
        0 <= n <= steps.len(),
        forall|i: int| 0 <= i < steps.len() ==> handle_named(#[trigger] steps[i]) != Some(handle),
    ensures
        state_after(steps, phase, h, n).pending_ctor_key matches Some(key) ==> key.1 != handle,
    decreases n,
{
    if n > 0 {
        lemma_pending_used(steps, phase, h, handle, n - 1);
        assert(handle_named(steps[n - 1]) != Some(handle));
    }
}

/// Whether the bindings of two states are the same but the one that a record makes: as long
/// as it is in force it has another handle in the second state.
spec fn moved_alike(
    before: ReplayState,
    after: ReplayState,
    loaded: Wit,
    handle: ResourceHandle,
    moved: bool,
) -> bool {
    &&& before.pending_ctor_key == after.pending_ctor_key
    &&& forall|id: CoroutineId, z: ResourceHandle|
        z != handle && !(moved && (id, z) == loaded.resolver_address) ==> #[trigger] binding(
            before,
            id,
            z,
        ) == binding(after, id, z)
    &&& moved ==> binding(before, loaded.resolver_address.0, loaded.resolver_address.1) == Some(
        loaded.resolver_value,
    ) && binding(after, loaded.resolver_address.0, handle) == Some(loaded.resolver_value)
}

/// Whether the bindings of a trace and of the renamed one agree after the first `n` steps.
#[verifier::opaque]
spec fn bound_alike(
    a: Seq<Step>,
    b: Seq<Step>,
    phase: TxPhase,
    h: spec_fn([u64; 4], [u64; 8]) -> [u64; 4],
    s: int,
    handle: ResourceHandle,
    n: int,
) -> bool {
    moved_alike(
        state_after(a, phase, h, n),
        state_after(b, phase, h, n),
        replay(a, phase, h)[s],
        handle,
        s < n && in_force(a, phase, h, s, n),
    )
}

/// Whether a record changes the bindings of one state to those of another.
spec fn rebinds(w: Wit, before: ReplayState, after: ReplayState) -> bool {
    forall|id: CoroutineId, z: ResourceHandle| #[trigger]
        binding(after, id, z) == if w.resolver_write && w.resolver_address == (id, z) {
            Some(w.resolver_value)
        } else {
            binding(before, id, z)
        }
}

proof fn lemma_rebinds(
    steps: Seq<Step>,
    phase: TxPhase,
    h: spec_fn([u64; 4], [u64; 8]) -> [u64; 4],
    n: int,
)
    requires
        0 <= n < steps.len(),
    ensures
        rebinds(
            replay(steps, phase, h)[n],
            state_after(steps, phase, h, n),
            state_after(steps, phase, h, n + 1),
        ),
{
    let w = replay(steps, phase, h)[n];
    assert forall|id: CoroutineId, z: ResourceHandle| #[trigger]
        binding(state_after(steps, phase, h, n + 1), id, z) == if w.resolver_write
            && w.resolver_address == (id, z) {
            Some(w.resolver_value)
        } else {
            binding(state_after(steps, phase, h, n), id, z)
        } by {
        lemma_binding_after(steps, phase, h, n, id, z);
    }
}

/// Records that bind alike keep bindings alike. A binding is in force until it is made anew.
proof fn lemma_moved_step(
    before: ReplayState,
    after: ReplayState,
    before_next: ReplayState,
    after_next: ReplayState,
    v: Wit,
    w: Wit,
    loaded: Wit,
    handle: ResourceHandle,
    moved: bool,
)
    requires
        moved_alike(before, after, loaded, handle, moved),
        rebinds(v, before, before_next),
        rebinds(w, after, after_next),
        v.resolver_write == w.resolver_write,
        v.resolver_write ==> v.resolver_address == w.resolver_address && v.resolver_value
            == w.resolver_value && v.resolver_address.1 != handle,
        before_next.pending_ctor_key == after_next.pending_ctor_key,
    ensures
        moved_alike(
            before_next,
            after_next,
            loaded,
            handle,
            moved && !(v.resolver_write && v.resolver_address == loaded.resolver_address),
        ),
{
    let still = moved && !(v.resolver_write && v.resolver_address == loaded.resolver_address);
    assert forall|id: CoroutineId, z: ResourceHandle|
        z != handle && !(still && (id, z) == loaded.resolver_address) implies #[trigger] binding(
        before_next,
        id,
        z,
    ) == binding(after_next, id, z) by {
        assert(!(moved && (id, z) == loaded.resolver_address) ==> binding(before, id, z)
            == binding(after, id, z));
        assert(binding(after_next, id, z) == if w.resolver_write && w.resolver_address == (id, z) {
            Some(w.resolver_value)
        } else {
            binding(after, id, z)
        });
    }
}

/// A binding stays in force as long as no step makes it anew.
proof fn lemma_in_force(
    steps: Seq<Step>,
    phase: TxPhase,
    h: spec_fn([u64; 4], [u64; 8]) -> [u64; 4],
    s: int,
    n: int,
)
    requires
        0 <= n < steps.len(),
        n != s,
    ensures
        ({
            let records = replay(steps, phase, h);
            s < n + 1 && in_force(steps, phase, h, s, n + 1) <==> s < n && in_force(
                steps,
                phase,
                h,
                s,
                n,
            ) && !(records[n].resolver_write && records[n].resolver_address
                == records[s].resolver_address)
        }),
{
}

/// Where a call of a trace and the same call of the renamed one go.
proof fn lemma_renamed_call(
    a: Seq<Step>,
    b: Seq<Step>,
    phase: TxPhase,
    h: spec_fn([u64; 4], [u64; 8]) -> [u64; 4],
    s: int,
    handle: ResourceHandle,
    n: int,
)
    requires
        renames_input(a, b, phase, h, s, handle),
        0 <= n < a.len(),
        agree(state_after(a, phase, h, n), state_after(b, phase, h, n)),
        bound_alike(a, b, phase, h, s, handle, n),
    ensures
        goes_alike(a, b, phase, h, n),
{
    reveal(bound_alike);
    if a[n] is CallMethod {
        let before = state_after(a, phase, h, n);
        let after = state_after(b, phase, h, n);
        let used = handle_named(a[n])->0;
        let loaded = replay(a, phase, h)[s];
        assert(handle_named(a[n]) != Some(handle));
        assert(replay(a, phase, h)[n].resolver_address == (before.curr, used));
        assert(b[n] == if calls_through(a, phase, h, s, n) {
            with_handle(a[n], handle)
        } else {
            a[n]
        });
        assert(binding(before, before.curr, used) == binding(
            after,
            before.curr,
            handle_named(b[n])->0,
        ));
    }
}

/// The record of a step that is not renamed binds as it did.
proof fn lemma_same_write(
    a: ReplayState,
    b: ReplayState,
    x: Step,
    y: Step,
    table: Seq<MethodHash>,
)
    requires
        agree(a, b),
        a.pending_ctor_key == b.pending_ctor_key,
        x == y || (x is CallMethod && y is CallMethod),
    ensures
        a.record(x, table).resolver_write == b.record(y, table).resolver_write,
        a.record(x, table).resolver_write ==> a.record(x, table).resolver_address == b.record(
            y,
            table,
        ).resolver_address && a.record(x, table).resolver_value == b.record(
            y,
            table,
        ).resolver_value,
        a.pending_after(x) == b.pending_after(y),
{
}

/// A step that does not load the renamed input binds in the renamed trace as it did.
proof fn lemma_writes_alike(
    a: Seq<Step>,
    b: Seq<Step>,
    phase: TxPhase,
    h: spec_fn([u64; 4], [u64; 8]) -> [u64; 4],
    s: int,
    handle: ResourceHandle,
    n: int,
)
    requires
        renames_input(a, b, phase, h, s, handle),
        0 <= n < a.len(),
        n != s,
        agree(state_after(a, phase, h, n), state_after(b, phase, h, n)),
        state_after(a, phase, h, n).pending_ctor_key == state_after(
            b,
            phase,
            h,
            n,
        ).pending_ctor_key,
    ensures
        ({
            let v = replay(a, phase, h)[n];
            let w = replay(b, phase, h)[n];
            &&& v.resolver_write == w.resolver_write
            &&& v.resolver_write ==> v.resolver_address == w.resolver_address
                && v.resolver_value == w.resolver_value && v.resolver_address.1 != handle
        }),
        state_after(a, phase, h, n + 1).pending_ctor_key == state_after(
            b,
            phase,
            h,
            n + 1,
        ).pending_ctor_key,
{
    let table = methods_of(a, a.len() as int);
    lemma_renamed_alike(a, b, phase, h, s, handle);
    lemma_same_methods(a, b, a.len() as int);
    assert(b[n] == if calls_through(a, phase, h, s, n) {
        with_handle(a[n], handle)
    } else {
        a[n]
    });
    lemma_same_write(
        state_after(a, phase, h, n),
        state_after(b, phase, h, n),
        a[n],
        b[n],
        table,
    );
    lemma_pending_used(a, phase, h, handle, n);
    assert(handle_named(a[n]) != Some(handle));
}

/// One step keeps the bindings alike.
proof fn lemma_bound_step(
    a: Seq<Step>,
    b: Seq<Step>,
    phase: TxPhase,
    h: spec_fn([u64; 4], [u64; 8]) -> [u64; 4],
    s: int,
    handle: ResourceHandle,
    n: int,
)
    requires
        renames_input(a, b, phase, h, s, handle),
        0 <= n < a.len(),
        n != s,
        agree(state_after(a, phase, h, n), state_after(b, phase, h, n)),
        bound_alike(a, b, phase, h, s, handle, n),
    ensures
        bound_alike(a, b, phase, h, s, handle, n + 1),
{
    reveal(bound_alike);
    lemma_writes_alike(a, b, phase, h, s, handle, n);
    lemma_rebinds(a, phase, h, n);
    lemma_rebinds(b, phase, h, n);
    lemma_in_force(a, phase, h, s, n);
    lemma_moved_step(
        state_after(a, phase, h, n),
        state_after(b, phase, h, n),
        state_after(a, phase, h, n + 1),
        state_after(b, phase, h, n + 1),
        replay(a, phase, h)[n],
        replay(b, phase, h)[n],
        replay(a, phase, h)[s],
        handle,
        s < n && in_force(a, phase, h, s, n),
    );
}

/// The step that loads the input binds it under its new handle.
proof fn lemma_bound_at(
    a: Seq<Step>,
    b: Seq<Step>,
    phase: TxPhase,
    h: spec_fn([u64; 4], [u64; 8]) -> [u64; 4],
    s: int,
    handle: ResourceHandle,
)
    requires
        renames_input(a, b, phase, h, s, handle),
        agree(state_after(a, phase, h, s), state_after(b, phase, h, s)),
        bound_alike(a, b, phase, h, s, handle, s),
    ensures
        bound_alike(a, b, phase, h, s, handle, s + 1),
{
    reveal(bound_alike);
    let before = state_after(a, phase, h, s);
    let after = state_after(b, phase, h, s);
    let v = replay(a, phase, h)[s];
    let w = replay(b, phase, h)[s];
    let place = v.resolver_address;
    assert(b[s] == with_handle(a[s], handle));
    assert(v.resolver_write && w.resolver_write);
    assert(w.resolver_address == (place.0, handle));
    assert(w.resolver_value == v.resolver_value);
    assert forall|id: CoroutineId, z: ResourceHandle|
        z != handle && (id, z) != place implies #[trigger] binding(
        state_after(a, phase, h, s + 1),
        id,
        z,
    ) == binding(state_after(b, phase, h, s + 1), id, z) by {
        lemma_binding_after(a, phase, h, s, id, z);
        lemma_binding_after(b, phase, h, s, id, z);
        assert(binding(before, id, z) == binding(after, id, z));
    }
    lemma_binding_after(a, phase, h, s, place.0, place.1);
    lemma_binding_after(b, phase, h, s, place.0, handle);
    assert(in_force(a, phase, h, s, s + 1));
}

/// Nothing is bound at the start.
proof fn lemma_bound_start(
    a: Seq<Step>,
    b: Seq<Step>,
    phase: TxPhase,
    h: spec_fn([u64; 4], [u64; 8]) -> [u64; 4],
    s: int,
    handle: ResourceHandle,
)
    requires
        0 <= s,
    ensures
        agree(state_after(a, phase, h, 0), state_after(b, phase, h, 0)),
        bound_alike(a, b, phase, h, s, handle, 0),
{
    reveal(bound_alike);
}

/// Whether a trace and the renamed one are alike after the first `n` steps.
#[verifier::opaque]
spec fn renamed_at(
    a: Seq<Step>,
    b: Seq<Step>,
    phase: TxPhase,
    h: spec_fn([u64; 4], [u64; 8]) -> [u64; 4],
    s: int,
    handle: ResourceHandle,
    n: int,
) -> bool {
    &&& agree(state_after(a, phase, h, n), state_after(b, phase, h, n))
    &&& bound_alike(a, b, phase, h, s, handle, n)
}

/// One step keeps a trace and the renamed one alike, and goes alike.
proof fn lemma_renamed_step(
    a: Seq<Step>,
    b: Seq<Step>,
    phase: TxPhase,
    h: spec_fn([u64; 4], [u64; 8]) -> [u64; 4],
    s: int,
    handle: ResourceHandle,
    n: int,
)
    requires
        renames_input(a, b, phase, h, s, handle),
        0 <= n < a.len(),
        renamed_at(a, b, phase, h, s, handle, n),
    ensures
        renamed_at(a, b, phase, h, s, handle, n + 1),
        goes_alike(a, b, phase, h, n),
{
    reveal(renamed_at);
    lemma_renamed_alike(a, b, phase, h, s, handle);
    lemma_renamed_call(a, b, phase, h, s, handle, n);
    lemma_agree_step(a, b, phase, h, n);
    if n == s {
        lemma_bound_at(a, b, phase, h, s, handle);
    } else {
        lemma_bound_step(a, b, phase, h, s, handle, n);
    }
}

/// A trace and the renamed one are alike at every step.
proof fn lemma_renamed(
    a: Seq<Step>,
    b: Seq<Step>,
    phase: TxPhase,
    h: spec_fn([u64; 4], [u64; 8]) -> [u64; 4],
    s: int,
    handle: ResourceHandle,
    n: int,
)
    requires
        renames_input(a, b, phase, h, s, handle),
        0 <= n <= a.len(),
    ensures
        renamed_at(a, b, phase, h, s, handle, n),
    decreases n,
{
    if n > 0 {
        lemma_renamed(a, b, phase, h, s, handle, n - 1);
        lemma_renamed_step(a, b, phase, h, s, handle, n - 1);
    } else {
        reveal(renamed_at);
        lemma_bound_start(a, b, phase, h, s, handle);
    }
}

/// The handle of an input is no part of what a transaction states: where one trace is
/// another with an unused handle for an input, in the step that loads it and in the calls
/// through it, and each is checked with its own roots, the check accepts one where it accepts
/// the other, with the same statement.
pub proof fn law_input_handles_are_not_stated(
    a: Trace,
    b: Trace,
    phase: TxPhase,
    s: int,
    handle: ResourceHandle,
    size: usize,
    roots_a: Map<u32, [u64; 4]>,
    roots_b: Map<u32, [u64; 4]>,
    statement: Option<TransactionStatement>,
    h: spec_fn([u64; 4], [u64; 8]) -> [u64; 4],
)
    requires
        a.0@.len() <= u32::MAX,
        renames_input(a.0@, b.0@, phase, h, s, handle),
        has_roots(a.0@, phase, h, roots_a),
        has_roots(b.0@, phase, h, roots_b),
    ensures
        allowed(a.0@, phase, Some(roots_a), statement, h) <==> allowed(
            b.0@,
            phase,
            Some(roots_b),
            statement,
            h,
        ),
        trace_outcome(a, phase, size, Some(roots_a), statement, h) is Ok <==> trace_outcome(
            b,
            phase,
            size,
            Some(roots_b),
            statement,
            h,
        ) is Ok,
{
    let n = a.0@.len() as int;
    lemma_renamed_alike(a.0@, b.0@, phase, h, s, handle);
    assert forall|i: int| 0 <= i < n implies #[trigger] goes_alike(a.0@, b.0@, phase, h, i) by {
        lemma_renamed(a.0@, b.0@, phase, h, s, handle, i);
        lemma_renamed_step(a.0@, b.0@, phase, h, s, handle, i);
    }
    law_handles_are_names(a.0@, b.0@, phase, roots_a, roots_b, statement, h);
    if crate::batch::valid_batch_size(size) {
        law_check_is_the_protocol(a, phase, size, Some(roots_a), statement, h);
        law_check_is_the_protocol(b, phase, size, Some(roots_b), statement, h);
    }
}

/// States that agree have the same owners of events.
proof fn lemma_same_owner(
    a: Seq<Step>,
    b: Seq<Step>,
    phase: TxPhase,
    h: spec_fn([u64; 4], [u64; 8]) -> [u64; 4],
    n: int,
)
    requires
        0 <= n < a.len(),
        alike(a[n], b[n]),
        agree(state_after(a, phase, h, n), state_after(b, phase, h, n)),
    ensures
        owner_at(a, phase, h, n) == owner_at(b, phase, h, n),
        encoding(a[n]).len() == encoding(b[n]).len(),
{
    assert(Opcode::of_step(a[n]) == Opcode::of_step(b[n]));
    assert(EventKind::of_step(a[n]) == EventKind::of_step(b[n]));
}

/// A coroutine has as many blocks in a trace as in the renamed one.
proof fn lemma_same_blocks(
    a: Seq<Step>,
    b: Seq<Step>,
    phase: TxPhase,
    h: spec_fn([u64; 4], [u64; 8]) -> [u64; 4],
    s: int,
    handle: ResourceHandle,
    owner: u64,
    n: int,
)
    requires
        renames_input(a, b, phase, h, s, handle),
        0 <= n <= a.len(),
    ensures
        blocks_of(a, phase, h, owner, n).len() == blocks_of(b, phase, h, owner, n).len(),
    decreases n,
{
    if n > 0 {
        lemma_same_blocks(a, b, phase, h, s, handle, owner, n - 1);
        lemma_renamed(a, b, phase, h, s, handle, n - 1);
        lemma_renamed_alike(a, b, phase, h, s, handle);
        assert(alike(a[n - 1], b[n - 1]));
        assert(agree(state_after(a, phase, h, n - 1), state_after(b, phase, h, n - 1))) by {
            reveal(renamed_at);
        }
        lemma_same_owner(a, b, phase, h, n - 1);
    }
}

/// The first block of an event of a coroutine stands behind the blocks of its earlier events.
proof fn lemma_block_place(
    steps: Seq<Step>,
    phase: TxPhase,
    h: spec_fn([u64; 4], [u64; 8]) -> [u64; 4],
    owner: u64,
    i: int,
    n: int,
)
    requires
        0 <= i < n <= steps.len(),
        owner_at(steps, phase, h, i) == Some(owner),
        encoding(steps[i]).len() > 0,
    ensures
        blocks_of(steps, phase, h, owner, i).len() < blocks_of(steps, phase, h, owner, n).len(),
        blocks_of(steps, phase, h, owner, n)[blocks_of(steps, phase, h, owner, i).len() as int]
            == encoding(steps[i])[0],
    decreases n,
{
    if n > i + 1 {
        lemma_block_place(steps, phase, h, owner, i, n - 1);
    }
}

/// Calls through different handles have different first blocks.
proof fn lemma_calls_apart(a: Step, b: Step)
    requires
        a is CallMethod,
        b is CallMethod,
        handle_named(a) != handle_named(b),
    ensures
        encoding(a).len() > 0,
        encoding(b).len() > 0,
        reduced8(encoding(a)[0]) != reduced8(encoding(b)[0]),
{
    let x = (handle_named(a)->0).0;
    let y = (handle_named(b)->0).0;
    assert(encoding(a)[0][1] == x);
    assert(encoding(b)[0][1] == y);
    vstd::arithmetic::div_mod::lemma_small_mod(x as nat, FIELD_MODULUS as nat);
    vstd::arithmetic::div_mod::lemma_small_mod(y as nat, FIELD_MODULUS as nat);
    assert(reduced8(encoding(a)[0])[1] == x);
    assert(reduced8(encoding(b)[0])[1] == y);
}

/// The event of a call commits to the handle that it uses: where an input with a call
/// through it has another handle, the chain of the caller is another one, unless the
/// compression collides on its blocks.
pub proof fn law_callers_commit_to_handles(
    a: Seq<Step>,
    b: Seq<Step>,
    phase: TxPhase,
    s: int,
    handle: ResourceHandle,
    i: int,
    h: spec_fn([u64; 4], [u64; 8]) -> [u64; 4],
)
    requires
        renames_input(a, b, phase, h, s, handle),
        0 <= i < a.len(),
        calls_through(a, phase, h, s, i),
        ({
            let owner = replay(a, phase, h)[i].curr_before.packed();
            let x = blocks_of(a, phase, h, owner, a.len() as int);
            let y = blocks_of(b, phase, h, owner, b.len() as int);
            forall|k: int| 0 <= k < x.len() ==> !#[trigger] collides(h, x, y, k)
        }),
    ensures
        ({
            let owner = replay(a, phase, h)[i].curr_before.packed();
            let x = blocks_of(a, phase, h, owner, a.len() as int);
            let y = blocks_of(b, phase, h, owner, b.len() as int);
            &&& emits(a, phase, h, owner, a.len() as int)
            &&& reduced4(extended_by(h, ZERO_CHAIN, x, x.len() as int)) != reduced4(
                extended_by(h, ZERO_CHAIN, y, y.len() as int),
            )
        }),
{
    let n = a.len() as int;
    let owner = replay(a, phase, h)[i].curr_before.packed();
    let x = blocks_of(a, phase, h, owner, n);
    let y = blocks_of(b, phase, h, owner, n);
    let place = blocks_of(a, phase, h, owner, i).len() as int;
    lemma_same_blocks(a, b, phase, h, s, handle, owner, n);
    lemma_same_blocks(a, b, phase, h, s, handle, owner, i);
    lemma_renamed_alike(a, b, phase, h, s, handle);
    assert(alike(a[i], b[i]));
    lemma_renamed(a, b, phase, h, s, handle, i);
    assert(agree(state_after(a, phase, h, i), state_after(b, phase, h, i))) by {
        reveal(renamed_at);
    }
    lemma_same_owner(a, b, phase, h, i);
    assert(owner_at(a, phase, h, i) == Some(owner));
    assert(b[i] == with_handle(a[i], handle));
    assert(handle_named(a[i]) != Some(handle));
    lemma_calls_apart(a[i], b[i]);
    lemma_block_place(a, phase, h, owner, i, n);
    lemma_block_place(b, phase, h, owner, i, n);
    assert(reduced8(x[place]) != reduced8(y[place]));
    law_chains_tell_blocks_apart(h, x, y);
}

/// The handle of an input is committed to, but not stated: where an accepted transaction
/// calls through the handle of an input, and another one has an unused handle in its place,
/// the check accepts the other one with the same statement and its own roots. These are
/// other roots, unless the compression collides on the blocks of the caller.
pub proof fn law_input_handles_are_committed_to(
    a: Trace,
    b: Trace,
    phase: TxPhase,
    s: int,
    handle: ResourceHandle,
    i: int,
    size: usize,
    roots_a: Map<u32, [u64; 4]>,
    roots_b: Map<u32, [u64; 4]>,
    statement: Option<TransactionStatement>,
    h: spec_fn([u64; 4], [u64; 8]) -> [u64; 4],
)
    requires
        a.0@.len() <= u32::MAX,
        trace_outcome(a, phase, size, Some(roots_a), statement, h) is Ok,
        renames_input(a.0@, b.0@, phase, h, s, handle),
        0 <= i < a.0@.len(),
        calls_through(a.0@, phase, h, s, i),
        has_roots(b.0@, phase, h, roots_b),
    ensures
        trace_outcome(b, phase, size, Some(roots_b), statement, h) is Ok,
        ({
            let owner = replay(a.0@, phase, h)[i].curr_before.packed();
            let x = blocks_of(a.0@, phase, h, owner, a.0@.len() as int);
            let y = blocks_of(b.0@, phase, h, owner, b.0@.len() as int);
            (forall|k: int| 0 <= k < x.len() ==> !#[trigger] collides(h, x, y, k)) ==> roots_a
                != roots_b
        }),
{
    law_check_is_the_protocol(a, phase, size, Some(roots_a), statement, h);
    law_input_handles_are_not_stated(
        a,
        b,
        phase,
        s,
        handle,
        size,
        roots_a,
        roots_b,
        statement,
        h,
    );
    let w = replay(a.0@, phase, h)[i];
    let owner = w.curr_before.packed();
    let x = blocks_of(a.0@, phase, h, owner, a.0@.len() as int);
    let y = blocks_of(b.0@, phase, h, owner, b.0@.len() as int);
    assert(keeps_protocol(a.0@, phase, h, i));
    assert(owner <= u32::MAX);
    if forall|k: int| 0 <= k < x.len() ==> !#[trigger] collides(h, x, y, k) {
        law_callers_commit_to_handles(a.0@, b.0@, phase, s, handle, i, h);
        let key = owner as u32;
        assert(roots_a.contains_key(key));
        if roots_b.contains_key(key) {
            assert(roots_a[key] != roots_b[key]);
        }
    }
}

} // verus!
