//! What the parts of the relation on transfer of control, addresses and returns say of a
//! row that shows a witness record.

use vstd::prelude::*;

use crate::assignment::shows;
use crate::ccs::{
    address_rows, constructor_binding_row, event_owner_row, expected_frame_row, frame_row,
    method_table_row, return_rows, stack_rows, transition_rows,
};
use crate::exactness::{
    column_ranged, lemma_kind_row, lemma_rows6, lemma_rows7, ranged,
};
use crate::field::{residue, vanishes, FIELD_MODULUS};
use crate::groups::OpcodeGroup;
use crate::ivc_state::{lemma_packed_injective, CoroutineKind, CurrPhase};
use crate::layout::{
    bit_of, COL_CALL_SP_AFTER, COL_CALL_SP_BEFORE, COL_CALL_STACK_EXPECTED_ADDR_STRIDE_8,
    COL_CALL_STACK_MUL_STRIDE_8, COL_CALL_STACK_POP, COL_CALL_STACK_PUSH, COL_CALL_STACK_TOP,
    COL_CALL_TARGET, COL_CURR_AFTER, COL_CURR_BEFORE, COL_CURR_PHASE_AFTER, COL_CURR_PHASE_BEFORE,
    COL_ENABLED_METHOD_LOG_LEN_AFTER, COL_ENABLED_METHOD_LOG_LEN_BEFORE, COL_EVENT_OWNER,
    COL_EVENT_OWNER_STRIDE_8, COL_METHOD_INDEX, COL_METHOD_LOOKUP, COL_METHOD_TABLE_ADDR,
    COL_NEXT_UTXO_ID_AFTER, COL_NEXT_UTXO_ID_BEFORE, COL_ONE, COL_PENDING_CTOR_HANDLE_AFTER,
    COL_PENDING_CTOR_HANDLE_BEFORE, COL_PENDING_CTOR_HOLDER_AFTER, COL_PENDING_CTOR_HOLDER_BEFORE,
    COL_PENDING_CTOR_PRESENT_AFTER, COL_PENDING_CTOR_PRESENT_BEFORE,
    COL_RESOURCE_RESOLVER_ADDR_CID, COL_RESOURCE_RESOLVER_ADDR_HANDLE, COL_RESOURCE_RESOLVER_READ,
    COL_RESOURCE_RESOLVER_VALUE, COL_RESOURCE_RESOLVER_WRITE, COL_SEL_CALL_METHOD,
    COL_SEL_NEW_UTXO, COL_SEL_PRELOAD_METHOD, COL_SEL_READ_ABI, COL_SEL_REGISTER_METHOD,
    COL_SEL_RETURN, COL_SEL_SET_STORAGE,
};
use crate::legality::kind_of;
use crate::memory::value_of;
use crate::opcode::Opcode;
use crate::range_check::bit;
use crate::relation::{satisfied, Term};
use crate::selection::{
    lemma_constant_row, lemma_equal_row, lemma_group_row, lemma_group_sum, lemma_opcode_row,
};
use crate::shared_rules::lemma_flag;
use crate::soundness::{
    lemma_concat4, lemma_linear_holds, lemma_product_holds, lemma_small_zero, lemma_sum1,
    lemma_sum2, lemma_sum3, lemma_sum4, lemma_sum5, value_sum,
};
use crate::step::Wit;
use crate::witness::{flag, handle_of, holder_of, looks_up_method};
use vstd::arithmetic::power2::lemma2_to64;

verus! {

/// Where control goes.
pub open spec fn rule_control(w: Wit) -> bool {
    w.curr_after == if w.opcode.switches_curr() {
        w.call_target
    } else {
        w.curr_before
    }
}

proof fn lemma_control(z: Seq<u64>, w: Wit, h: spec_fn([u64; 4], [u64; 8]) -> [u64; 4])
    requires
        shows(z, w),
    ensures
        transition_rows()[0].holds(z, h) <==> rule_control(w),
{
    let moved = seq![(COL_CALL_TARGET, 1i64), (COL_CURR_BEFORE, -1i64)];
    let change = seq![(COL_CURR_AFTER, 1i64), (COL_CURR_BEFORE, -1i64)];
    let group = OpcodeGroup::SwitchesCurr;
    lemma_product_holds("current coroutine transition", group.selectors(), moved, change, z, h);
    lemma_group_sum(group, z, w.opcode);
    lemma_sum2(z, COL_CALL_TARGET, 1, COL_CURR_BEFORE, -1i64);
    lemma_sum2(z, COL_CURR_AFTER, 1, COL_CURR_BEFORE, -1i64);
    let x = value_sum(moved, z, 2);
    assert(1 * x == x);
    assert(0 * x == 0);
    lemma_packed_injective(w.curr_after, w.call_target);
    lemma_packed_injective(w.curr_after, w.curr_before);
    let to = if w.opcode.switches_curr() {
        value_of(z, COL_CALL_TARGET)
    } else {
        value_of(z, COL_CURR_BEFORE)
    };
    lemma_small_zero(0);
    if vanishes(to - value_of(z, COL_CURR_AFTER)) {
        lemma_small_zero(to - value_of(z, COL_CURR_AFTER));
    }
}

/// What is allocated, accessed and logged.
pub open spec fn rule_growth(w: Wit) -> bool {
    &&& w.next_utxo_id_after == w.next_utxo_id_before + (if w.opcode == Opcode::NewUtxo || w.opcode
        == Opcode::SetStorage {
        1int
    } else {
        0
    })
    &&& w.resolver_read == (w.opcode == Opcode::CallMethod)
    &&& w.resolver_write == (w.opcode == Opcode::SetStorage || (w.opcode == Opcode::Return
        && w.pending_ctor_key_before is Some))
    &&& w.enabled_method_log_len_after == w.enabled_method_log_len_before + (
    if w.opcode.appends_method() {
        1int
    } else {
        0
    })
}

/// What a linear equation on a counter and two selectors says of a row.
proof fn lemma_counter(
    label: &'static str,
    z: Seq<u64>,
    h: spec_fn([u64; 4], [u64; 8]) -> [u64; 4],
    after: usize,
    before: usize,
    first: usize,
    second: usize,
)
    requires
        value_of(z, COL_ONE) == 1,
        value_of(z, after) <= u32::MAX,
        value_of(z, before) <= u32::MAX,
        value_of(z, first) <= 1,
        value_of(z, second) <= 1,
    ensures
        crate::relation::linear(
            label,
            seq![(after, 1i64), (before, -1i64), (first, -1i64), (second, -1i64)],
        ).holds(z, h) <==> value_of(z, after) == value_of(z, before) + value_of(z, first)
            + value_of(z, second),
{
    let terms = seq![(after, 1i64), (before, -1i64), (first, -1i64), (second, -1i64)];
    lemma_linear_holds(label, terms, z, h);
    lemma_sum4(z, after, 1, before, -1i64, first, -1i64, second, -1i64);
    let x = value_of(z, after) - value_of(z, before) - value_of(z, first) - value_of(z, second);
    lemma_small_zero(0);
    if vanishes(x) {
        lemma_small_zero(x);
    }
}

/// The rows on the access to the resource bindings.
proof fn lemma_access(z: Seq<u64>, w: Wit, h: spec_fn([u64; 4], [u64; 8]) -> [u64; 4])
    requires
        shows(z, w),
    ensures
        transition_rows()[3].holds(z, h) <==> w.resolver_read == (w.opcode == Opcode::CallMethod),
        transition_rows()[4].holds(z, h) <==> w.resolver_write == (w.opcode == Opcode::SetStorage
            || (w.opcode == Opcode::Return && w.pending_ctor_key_before is Some)),
{
    let label = "resource resolver access flags";
    let op = w.opcode;
    let read = COL_RESOURCE_RESOLVER_READ;
    let write = COL_RESOURCE_RESOLVER_WRITE;
    let call = COL_SEL_CALL_METHOD;
    let set = COL_SEL_SET_STORAGE;
    let pending = COL_PENDING_CTOR_PRESENT_BEFORE;
    assert(value_of(z, Opcode::CallMethod.selector()) == flag(op == Opcode::CallMethod));
    assert(value_of(z, Opcode::SetStorage.selector()) == flag(op == Opcode::SetStorage));
    assert(value_of(z, Opcode::Return.selector()) == flag(op == Opcode::Return));
    lemma_small_zero(0);
    lemma_linear_holds(label, seq![(read, 1i64), (call, -1i64)], z, h);
    lemma_sum2(z, read, 1, call, -1i64);
    let x = value_of(z, read) - value_of(z, call);
    if vanishes(x) {
        lemma_small_zero(x);
    }
    let a = seq![(COL_SEL_RETURN, 1i64)];
    let b = seq![(pending, 1i64)];
    let c = seq![(write, 1i64), (set, -1i64)];
    lemma_product_holds(label, a, b, c, z, h);
    lemma_sum1(z, COL_SEL_RETURN, 1);
    lemma_sum1(z, pending, 1);
    lemma_sum2(z, write, 1, set, -1i64);
    let p = value_of(z, pending) as int;
    assert(1 * p == p);
    assert(0 * p == 0);
    let y = value_of(z, COL_SEL_RETURN) * p - (value_of(z, write) - value_of(z, set));
    if vanishes(y) {
        lemma_small_zero(y);
    }
}

/// The rows that fix flags of transfer.
proof fn lemma_transfer_flags(z: Seq<u64>, w: Wit, h: spec_fn([u64; 4], [u64; 8]) -> [u64; 4])
    requires
        shows(z, w),
    ensures
        transition_rows()[1].holds(z, h),
        transition_rows()[5].holds(z, h),
{
    let op = w.opcode;
    let new = COL_SEL_NEW_UTXO;
    let call = COL_SEL_CALL_METHOD;
    let register = COL_SEL_REGISTER_METHOD;
    let preload = COL_SEL_PRELOAD_METHOD;
    let read = COL_SEL_READ_ABI;
    let lookup = COL_METHOD_LOOKUP;
    assert(value_of(z, Opcode::NewUtxo.selector()) == flag(op == Opcode::NewUtxo));
    assert(value_of(z, Opcode::CallMethod.selector()) == flag(op == Opcode::CallMethod));
    assert(value_of(z, Opcode::RegisterMethod.selector()) == flag(op == Opcode::RegisterMethod));
    assert(value_of(z, Opcode::PreloadMethod.selector()) == flag(op == Opcode::PreloadMethod));
    assert(value_of(z, Opcode::ReadAbi.selector()) == flag(op == Opcode::ReadAbi));
    lemma_small_zero(0);
    lemma_linear_holds(
        "call stack push global condition: true if new_utxo or call_method",
        seq![(new, 1i64), (call, 1i64), (COL_CALL_STACK_PUSH, -1i64)],
        z,
        h,
    );
    lemma_sum3(z, new, 1, call, 1, COL_CALL_STACK_PUSH, -1i64);
    lemma_linear_holds(
        "enabled method log transition",
        seq![
            (lookup, 1i64),
            (register, -1i64),
            (preload, -1i64),
            (call, -1i64),
            (read, -1i64),
        ],
        z,
        h,
    );
    lemma_sum5(z, lookup, 1, register, -1i64, preload, -1i64, call, -1i64, read, -1i64);
}

pub(crate) proof fn lemma_transition(
    z: Seq<u64>,
    w: Wit,
    h: spec_fn([u64; 4], [u64; 8]) -> [u64; 4],
)
    requires
        shows(z, w),
    ensures
        satisfied(transition_rows(), z, h) <==> rule_control(w) && rule_growth(w),
{
    let op = w.opcode;
    lemma_control(z, w, h);
    lemma_access(z, w, h);
    lemma_transfer_flags(z, w, h);
    assert(value_of(z, Opcode::NewUtxo.selector()) == flag(op == Opcode::NewUtxo));
    assert(value_of(z, Opcode::SetStorage.selector()) == flag(op == Opcode::SetStorage));
    assert(value_of(z, Opcode::RegisterMethod.selector()) == flag(op == Opcode::RegisterMethod));
    assert(value_of(z, Opcode::PreloadMethod.selector()) == flag(op == Opcode::PreloadMethod));
    lemma_counter(
        "next UTXO allocator transition",
        z,
        h,
        COL_NEXT_UTXO_ID_AFTER,
        COL_NEXT_UTXO_ID_BEFORE,
        COL_SEL_NEW_UTXO,
        COL_SEL_SET_STORAGE,
    );
    lemma_counter(
        "enabled method log transition",
        z,
        h,
        COL_ENABLED_METHOD_LOG_LEN_AFTER,
        COL_ENABLED_METHOD_LOG_LEN_BEFORE,
        COL_SEL_REGISTER_METHOD,
        COL_SEL_PRELOAD_METHOD,
    );
    lemma_rows7(transition_rows(), z, h);
}

/// Movement of the call-stack pointer.
pub open spec fn rule_stack(w: Wit) -> bool {
    let before = residue(w.call_sp_before as int);
    let after = residue(w.call_sp_after as int);
    &&& w.opcode.pushes_to_call_stack() ==> after == before + 1
    &&& w.opcode.pops_from_call_stack() ==> after + 1 == before
    &&& !w.opcode.switches_curr() ==> after == before
}

pub(crate) proof fn lemma_stack(z: Seq<u64>, w: Wit, h: spec_fn([u64; 4], [u64; 8]) -> [u64; 4])
    requires
        shows(z, w),
        ranged(z),
    ensures
        satisfied(stack_rows(), z, h) <==> rule_stack(w),
{
    let rows = stack_rows();
    let op = w.opcode;
    let after = COL_CALL_SP_AFTER;
    let before = COL_CALL_SP_BEFORE;
    assert(column_ranged(z, after as int));
    assert(column_ranged(z, before as int));
    lemma2_to64();
    let x = value_of(z, after) - value_of(z, before);
    lemma_small_zero(0);
    let up = seq![(after, 1i64), (before, -1i64), (COL_ONE, -1i64)];
    let down = seq![(after, 1i64), (before, -1i64), (COL_ONE, 1i64)];
    let same = seq![(after, 1i64), (before, -1i64)];
    lemma_group_row(OpcodeGroup::Pushes, "sp' = sp+1 on push", up, z, h, op);
    lemma_group_row(OpcodeGroup::Pops, "sp' = sp-1 on pop", down, z, h, op);
    lemma_group_row(
        OpcodeGroup::PreservesStack,
        "sp' = sp when the call stack is preserved",
        same,
        z,
        h,
        op,
    );
    lemma_sum3(z, after, 1, before, -1i64, COL_ONE, -1i64);
    lemma_sum3(z, after, 1, before, -1i64, COL_ONE, 1);
    lemma_sum2(z, after, 1, before, -1i64);
    if vanishes(x - 1) {
        lemma_small_zero(x - 1);
    }
    if vanishes(x + 1) {
        lemma_small_zero(x + 1);
    }
    if vanishes(x) {
        lemma_small_zero(x);
    }
    lemma_flag("sp' = sp+1 on push", z, h, op, OpcodeGroup::Pushes, COL_CALL_STACK_PUSH);
    lemma_flag("sp' = sp-1 on pop", z, h, op, OpcodeGroup::Pops, COL_CALL_STACK_POP);
    lemma_flag(
        "reads the top of the stack without popping",
        z,
        h,
        op,
        OpcodeGroup::Peeks,
        COL_CALL_STACK_TOP,
    );
    lemma_rows6(rows, z, h);
}

/// A number stands for the same field element as its residue.
pub(crate) proof fn lemma_less_residue(x: int)
    ensures
        vanishes(x - residue(x)),
{
    let p = FIELD_MODULUS as int;
    vstd::arithmetic::div_mod::lemma_mod_bound(x, p);
    vstd::arithmetic::div_mod::lemma_fundamental_div_mod(x, p);
    let q = x / p;
    assert(x - residue(x) == q * p) by (nonlinear_arith)
        requires
            x == p * q + residue(x),
    ;
    vstd::arithmetic::div_mod::lemma_mod_multiples_basic(q, p);
}

proof fn lemma_method_address(
    z: Seq<u64>,
    w: Wit,
    h: spec_fn([u64; 4], [u64; 8]) -> [u64; 4],
    i: int,
)
    requires
        shows(z, w),
        0 <= i < 8,
    ensures
        method_table_row(i).holds(z, h),
{
    let address = (COL_METHOD_TABLE_ADDR + i) as usize;
    let a = seq![(COL_METHOD_LOOKUP, 1i64)];
    let b = seq![(COL_METHOD_INDEX, 8i64), (COL_ONE, i as i64)];
    let c = seq![(address, 1i64)];
    lemma_product_holds("method table lookup addresses", a, b, c, z, h);
    lemma_sum1(z, COL_METHOD_LOOKUP, 1);
    lemma_sum2(z, COL_METHOD_INDEX, 8, COL_ONE, i as i64);
    lemma_sum1(z, address, 1);
    let x = 8 * w.method_index + i;
    assert(i * value_of(z, COL_ONE) == i) by (nonlinear_arith)
        requires
            value_of(z, COL_ONE) == 1,
    ;
    assert(value_sum(b, z, 2) == x);
    assert(1 * x == x);
    assert(0 * x == 0);
    assert(value_of(z, address) == (if looks_up_method(w.opcode) {
        x
    } else {
        0
    }));
    lemma_small_zero(0);
}

proof fn lemma_frame_addresses(
    z: Seq<u64>,
    w: Wit,
    h: spec_fn([u64; 4], [u64; 8]) -> [u64; 4],
    i: int,
)
    requires
        shows(z, w),
        0 <= i < 8,
    ensures
        frame_row(i).holds(z, h),
        expected_frame_row(i).holds(z, h),
        event_owner_row(i).holds(z, h),
{
    let label = "call stack mul stride (8)";
    let sp = COL_CALL_SP_BEFORE;
    let top = COL_CALL_STACK_TOP;
    let pop = COL_CALL_STACK_POP;
    let frame = (COL_CALL_STACK_MUL_STRIDE_8 + i) as usize;
    let expected = (COL_CALL_STACK_EXPECTED_ADDR_STRIDE_8 + i) as usize;
    let owner = (COL_EVENT_OWNER_STRIDE_8 + i) as usize;
    let k = i as i64;
    assert(k * value_of(z, COL_ONE) == i) by (nonlinear_arith)
        requires
            value_of(z, COL_ONE) == 1,
            k == i,
    ;
    let v = value_of(z, sp) as int;
    let t = value_of(z, top) as int;
    let p = value_of(z, pop) as int;
    let o = value_of(z, COL_EVENT_OWNER) as int;
    lemma_linear_holds(
        label,
        seq![(sp, 8i64), (top, -8i64), (pop, -8i64), (COL_ONE, k), (frame, -1i64)],
        z,
        h,
    );
    lemma_sum5(z, sp, 8, top, -8i64, pop, -8i64, COL_ONE, k, frame, -1i64);
    assert(value_of(z, frame) == residue(8 * (v - (t + p)) + i));
    lemma_less_residue(8 * (v - (t + p)) + i);
    lemma_linear_holds(
        label,
        seq![(sp, 8i64), (top, -8i64), (COL_ONE, k), (expected, -1i64)],
        z,
        h,
    );
    lemma_sum4(z, sp, 8, top, -8i64, COL_ONE, k, expected, -1i64);
    assert(value_of(z, expected) == residue(8 * (v - t) + i));
    lemma_less_residue(8 * (v - t) + i);
    lemma_linear_holds(
        "event owner mul stride (8)",
        seq![(COL_EVENT_OWNER, 8i64), (COL_ONE, k), (owner, -1i64)],
        z,
        h,
    );
    lemma_sum3(z, COL_EVENT_OWNER, 8, COL_ONE, k, owner, -1i64);
    assert(value_of(z, owner) == residue(8 * o + i));
    lemma_less_residue(8 * o + i);
}

/// The addresses of a row of a witness record are right.
pub(crate) proof fn lemma_addresses(
    z: Seq<u64>,
    w: Wit,
    h: spec_fn([u64; 4], [u64; 8]) -> [u64; 4],
)
    requires
        shows(z, w),
    ensures
        satisfied(address_rows(), z, h),
{
    let methods = Seq::new(8, |i: int| method_table_row(i));
    let frames = Seq::new(8, |i: int| frame_row(i));
    let expected = Seq::new(8, |i: int| expected_frame_row(i));
    let owners = Seq::new(8, |i: int| event_owner_row(i));
    assert forall|i: int| 0 <= i < 8 implies (#[trigger] methods[i]).holds(z, h) by {
        lemma_method_address(z, w, h, i);
    }
    assert forall|i: int| 0 <= i < 8 implies (#[trigger] frames[i]).holds(z, h) by {
        lemma_frame_addresses(z, w, h, i);
    }
    assert forall|i: int| 0 <= i < 8 implies (#[trigger] expected[i]).holds(z, h) by {
        lemma_frame_addresses(z, w, h, i);
    }
    assert forall|i: int| 0 <= i < 8 implies (#[trigger] owners[i]).holds(z, h) by {
        lemma_frame_addresses(z, w, h, i);
    }
    lemma_concat4(methods, frames, expected, owners, z, h);
}

/// A return, and the binding that it writes.
pub open spec fn rule_return(w: Wit) -> bool {
    &&& w.opcode == Opcode::Return ==> {
        &&& w.curr_phase_before == CurrPhase::Executing || w.curr_phase_before == CurrPhase::Yield
        &&& w.curr_phase_after == CurrPhase::Executing
        &&& kind_of(w.curr_after) == CoroutineKind::Coord
        &&& w.pending_ctor_key_after is None
    }
    &&& w.resolver_write != (w.opcode == Opcode::SetStorage) ==> {
        &&& w.resolver_address.0.packed() == holder_of(w.pending_ctor_key_before)
        &&& w.resolver_address.1.0 == handle_of(w.pending_ctor_key_before)
        &&& w.resolver_value == w.curr_before
    }
}

proof fn lemma_binding(
    z: Seq<u64>,
    w: Wit,
    h: spec_fn([u64; 4], [u64; 8]) -> [u64; 4],
    resolver: usize,
    pending: usize,
)
    requires
        shows(z, w),
    ensures
        constructor_binding_row(resolver, pending).holds(z, h) <==> (w.resolver_write != (w.opcode
            == Opcode::SetStorage) ==> value_of(z, resolver) == value_of(z, pending)),
{
    let write = COL_RESOURCE_RESOLVER_WRITE;
    let set = COL_SEL_SET_STORAGE;
    let a = seq![(write, 1i64), (set, -1i64)];
    let b = seq![(resolver, 1i64), (pending, -1i64)];
    let none = Seq::<Term>::empty();
    lemma_product_holds("return constraints", a, b, none, z, h);
    assert(value_of(z, Opcode::SetStorage.selector()) == flag(w.opcode == Opcode::SetStorage));
    lemma_sum2(z, write, 1, set, -1i64);
    lemma_sum2(z, resolver, 1, pending, -1i64);
    assert(value_sum(none, z, 0) == 0);
    let x = value_of(z, resolver) - value_of(z, pending);
    assert(1 * x == x);
    assert((-1) * x == -x);
    assert(0 * x == 0);
    lemma_small_zero(0);
    crate::soundness::lemma_residue_same(crate::relation::at(z, resolver));
    crate::soundness::lemma_residue_same(crate::relation::at(z, pending));
    if vanishes(x) {
        lemma_small_zero(x);
    }
    if vanishes(-x) {
        lemma_small_zero(-x);
    }
}

/// The rows of a return that its selector gates.
proof fn lemma_return_turn(z: Seq<u64>, w: Wit, h: spec_fn([u64; 4], [u64; 8]) -> [u64; 4])
    requires
        shows(z, w),
        ranged(z),
    ensures
        return_rows()[0].holds(z, h) <==> (w.opcode == Opcode::Return ==> w.curr_phase_before
            == CurrPhase::Executing || w.curr_phase_before == CurrPhase::Yield),
        return_rows()[1].holds(z, h) <==> (w.opcode == Opcode::Return ==> w.curr_phase_after
            == CurrPhase::Executing),
        return_rows()[2].holds(z, h) <==> (w.opcode == Opcode::Return ==> kind_of(w.curr_after)
            == CoroutineKind::Coord),
        return_rows()[3].holds(z, h) <==> (w.opcode == Opcode::Return ==> w.pending_ctor_key_after
            is None),
{
    let label = "return constraints";
    let op = Opcode::Return;
    let low = bit_of(COL_CURR_PHASE_BEFORE as int, 0) as usize;
    let high = bit_of(COL_CURR_PHASE_BEFORE as int, 1) as usize;
    lemma_equal_row(label, z, h, op, w.opcode, low, high);
    assert(column_ranged(z, COL_CURR_PHASE_BEFORE as int));
    lemma2_to64();
    let v = value_of(z, COL_CURR_PHASE_BEFORE);
    assert(value_of(z, low) == bit(v, 0));
    assert(value_of(z, high) == bit(v, 1));
    lemma_constant_row(label, z, h, op, w.opcode, COL_CURR_PHASE_AFTER, 0);
    lemma_kind_row(
        label,
        z,
        h,
        op,
        w.opcode,
        COL_CURR_AFTER,
        w.curr_after,
        CoroutineKind::Coord,
    );
    let present = COL_PENDING_CTOR_PRESENT_AFTER;
    let holder = COL_PENDING_CTOR_HOLDER_AFTER;
    let handle = COL_PENDING_CTOR_HANDLE_AFTER;
    lemma_opcode_row(
        label,
        seq![(present, 1i64), (holder, 1i64), (handle, 1i64)],
        z,
        h,
        op,
        w.opcode,
    );
    lemma_sum3(z, present, 1, holder, 1, handle, 1);
    let x = value_of(z, present) + value_of(z, holder) + value_of(z, handle);
    lemma_small_zero(0);
    if vanishes(x) {
        lemma_small_zero(x);
    }
}

pub(crate) proof fn lemma_return(z: Seq<u64>, w: Wit, h: spec_fn([u64; 4], [u64; 8]) -> [u64; 4])
    requires
        shows(z, w),
        ranged(z),
    ensures
        satisfied(return_rows(), z, h) <==> rule_return(w),
{
    lemma_return_turn(z, w, h);
    lemma_binding(z, w, h, COL_RESOURCE_RESOLVER_ADDR_CID, COL_PENDING_CTOR_HOLDER_BEFORE);
    lemma_binding(z, w, h, COL_RESOURCE_RESOLVER_ADDR_HANDLE, COL_PENDING_CTOR_HANDLE_BEFORE);
    lemma_binding(z, w, h, COL_RESOURCE_RESOLVER_VALUE, COL_CURR_BEFORE);
    lemma_packed_injective(w.resolver_value, w.curr_before);
    lemma_rows7(return_rows(), z, h);
}

} // verus!
