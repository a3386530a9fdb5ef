//! What each part of the relation says of a row that shows a witness record.

use vstd::prelude::*;

use crate::assignment::shows;
use crate::ccs::{
    call_method_rows, enter_constructor_rows, enter_method_rows, kind_row, new_utxo_rows,
    register_method_rows, yield_begin_rows,
};
use crate::field::vanishes;
use crate::ivc_state::{lemma_packed_injective, CoroutineId, CoroutineKind, CurrPhase};
use crate::layout::{
    bit_of, width_of, COLUMN_COUNT, COL_ABI_GENERATION_ADDR, COL_ABI_GENERATION_AFTER,
    COL_ABI_GENERATION_BEFORE, COL_ABI_METHOD_COUNT_ADDR, COL_ABI_METHOD_COUNT_AFTER,
    COL_ABI_METHOD_COUNT_BEFORE, COL_ABI_READ_ORDINAL_AFTER, COL_ABI_READ_ORDINAL_BEFORE,
    COL_ABI_READ_REMAINING_AFTER, COL_ABI_READ_REMAINING_BEFORE, COL_BOUNDARY_UTXO,
    COL_CALL_TARGET, COL_CURR_BEFORE, COL_CURR_PHASE_AFTER, COL_CURR_PHASE_BEFORE,
    COL_ENABLED_METHOD_LOG_ADDR, COL_ENABLED_METHOD_LOG_GENERATION,
    COL_ENABLED_METHOD_LOG_LEN_BEFORE, COL_ENABLED_METHOD_LOG_ORDINAL,
    COL_ENABLED_METHOD_LOG_UTXO, COL_LAST_INPUT_HAS_ABI_AFTER, COL_LAST_INPUT_HAS_ABI_BEFORE,
    COL_NEXT_UTXO_ID_BEFORE, COL_ONE, COL_OUTPUT_CURSOR_BEFORE, COL_OUTPUT_REMAINING,
    COL_PENDING_CTOR_HANDLE_AFTER, COL_PENDING_CTOR_HANDLE_BEFORE, COL_PENDING_CTOR_HOLDER_AFTER,
    COL_PENDING_CTOR_HOLDER_BEFORE, COL_PENDING_CTOR_PRESENT_AFTER,
    COL_PENDING_CTOR_PRESENT_BEFORE, COL_RESOURCE_RESOLVER_ADDR_CID,
    COL_RESOURCE_RESOLVER_ADDR_HANDLE, COL_RESOURCE_RESOLVER_VALUE,
};
use crate::legality::kind_of;
use crate::memory::value_of;
use crate::opcode::Opcode;
use crate::range_check::bit;
use crate::relation::{gated, product, satisfied, Equation, Term};
use crate::selection::{
    lemma_constant_row, lemma_equal_row, lemma_opcode_row, selects_only,
};
use crate::soundness::{
    lemma_product_holds, lemma_small_zero, lemma_sum1, lemma_sum3, lemma_sum4, value_sum,
};
use crate::step::Wit;
use crate::transaction::{
    append_rows, finish_boundary, get_storage_boundary, preload_method_boundary,
    read_abi_boundary, set_storage_boundary, skip_consumed_boundary, yield_begin_boundary,
};
use vstd::arithmetic::power2::{lemma2_to64, pow2};

verus! {

/// Whether a column of a row is in range, with its decomposition bits assigned.
pub open spec fn column_ranged(z: Seq<u64>, c: int) -> bool {
    &&& value_of(z, c as usize) < pow2(width_of(c))
    &&& width_of(c) > 1 ==> forall|j: int|
        0 <= j < width_of(c) ==> #[trigger] value_of(z, bit_of(c, j) as usize) == bit(
            value_of(z, c as usize),
            j as nat,
        )
}

/// Whether every bounded column of a row is in range, with its bits assigned.
pub open spec fn ranged(z: Seq<u64>) -> bool {
    forall|c: int|
        0 <= c < COLUMN_COUNT && width_of(c) > 0 ==> #[trigger] column_ranged(z, c)
}

/// Whether an equation belongs to a gate, and to nothing else.
pub open spec fn closed_by(e: Equation, gate: usize) -> bool {
    match e {
        Equation::Product { a, c, .. } => a == seq![(gate, 1i64)] && c == Seq::<Term>::empty(),
        Equation::Compression { .. } => false,
    }
}

/// The equations of an opcode hold where it is not selected.
pub(crate) proof fn lemma_closed(
    rows: Seq<Equation>,
    z: Seq<u64>,
    h: spec_fn([u64; 4], [u64; 8]) -> [u64; 4],
    op: Opcode,
    selected: Opcode,
)
    requires
        selects_only(z, selected),
        op != selected,
        forall|i: int| 0 <= i < rows.len() ==> #[trigger] closed_by(rows[i], op.selector()),
    ensures
        satisfied(rows, z, h),
{
    assert(value_of(z, op.selector()) == 0);
    assert forall|i: int| 0 <= i < rows.len() implies (#[trigger] rows[i]).holds(z, h) by {
        assert(closed_by(rows[i], op.selector()));
        let gate = seq![(op.selector(), 1i64)];
        match rows[i] {
            Equation::Product { label, a, b, c } => {
                lemma_product_holds(label, gate, b, Seq::empty(), z, h);
                lemma_sum1(z, op.selector(), 1);
                let x = value_sum(b, z, b.len() as int);
                assert(value_sum(Seq::<Term>::empty(), z, 0) == 0);
                assert(0 * x - 0 == 0);
                assert(rows[i] == product(label, gate, b, Seq::empty()));
            },
            Equation::Compression { .. } => {},
        }
    }
}

/// What [`kind_row`] says of a row.
pub(crate) proof fn lemma_kind_row(
    label: &'static str,
    z: Seq<u64>,
    h: spec_fn([u64; 4], [u64; 8]) -> [u64; 4],
    op: Opcode,
    selected: Opcode,
    column: usize,
    id: CoroutineId,
    kind: CoroutineKind,
)
    requires
        selects_only(z, selected),
        value_of(z, COL_ONE) == 1,
        ranged(z),
        column < COLUMN_COUNT,
        width_of(column as int) == 32,
        value_of(z, column) == id.packed(),
    ensures
        kind_row(label, op, column, kind).holds(z, h) <==> (op == selected ==> kind_of(id) == kind),
{
    let place = bit_of(column as int, 0) as usize;
    lemma_constant_row(label, z, h, op, selected, place, kind.tag() as i64);
    assert(column_ranged(z, column as int));
    lemma2_to64();
    let v = value_of(z, column);
    assert(value_of(z, place) == bit(v, 0));
    assert(v as nat / pow2(0) == v) by {
        vstd::arithmetic::div_mod::lemma_div_basics(v as int);
    }
}

/// What an equation of three terms says of a row.
pub(crate) proof fn lemma_three_row(
    label: &'static str,
    z: Seq<u64>,
    h: spec_fn([u64; 4], [u64; 8]) -> [u64; 4],
    op: Opcode,
    selected: Opcode,
    c0: usize,
    c1: usize,
    k1: i64,
    k2: i64,
)
    requires
        selects_only(z, selected),
        value_of(z, COL_ONE) == 1,
        value_of(z, c0) < 0x3_0000_0000,
        value_of(z, c1) < 0x3_0000_0000,
        -2 <= k1 <= -1,
        -1 <= k2 <= 1,
    ensures
        gated(label, op.selector(), seq![(c0, 1i64), (c1, k1), (COL_ONE, k2)]).holds(z, h) <==> (op
            == selected ==> value_of(z, c0) + k1 * value_of(z, c1) + k2 == 0),
{
    let terms = seq![(c0, 1i64), (c1, k1), (COL_ONE, k2)];
    lemma_opcode_row(label, terms, z, h, op, selected);
    lemma_sum3(z, c0, 1, c1, k1, COL_ONE, k2);
    let x = value_of(z, c1) as int;
    assert(k2 * value_of(z, COL_ONE) == k2) by (nonlinear_arith)
        requires
            value_of(z, COL_ONE) == 1,
    ;
    assert(-2 * x <= k1 * x <= 0) by (nonlinear_arith)
        requires
            -2 <= k1 <= -1,
            x >= 0,
    ;
    if vanishes(value_of(z, c0) + k1 * value_of(z, c1) + k2) {
        lemma_small_zero(value_of(z, c0) + k1 * value_of(z, c1) + k2);
    }
}

/// The key of the pending constructor is the same before and after a step exactly where
/// its columns are.
pub(crate) proof fn lemma_pending_key(w: Wit)
    ensures
        w.pending_ctor_key_after == w.pending_ctor_key_before <==> (crate::witness::flag(
            w.pending_ctor_key_after is Some,
        ) == crate::witness::flag(w.pending_ctor_key_before is Some) && crate::witness::holder_of(
            w.pending_ctor_key_after,
        ) == crate::witness::holder_of(w.pending_ctor_key_before) && crate::witness::handle_of(
            w.pending_ctor_key_after,
        ) == crate::witness::handle_of(w.pending_ctor_key_before)),
{
    match (w.pending_ctor_key_after, w.pending_ctor_key_before) {
        (Some((after, _)), Some((before, _))) => {
            lemma_packed_injective(after, before);
        },
        _ => {},
    }
}

pub(crate) proof fn lemma_rows1(
    rows: Seq<Equation>,
    z: Seq<u64>,
    h: spec_fn([u64; 4], [u64; 8]) -> [u64; 4],
)
    requires
        rows.len() == 1,
    ensures
        satisfied(rows, z, h) <==> {
            &&& rows[0].holds(z, h)
        },
{
    if satisfied(rows, z, h) {
        assert(rows[0].holds(z, h));
    }
}

pub(crate) proof fn lemma_rows2(
    rows: Seq<Equation>,
    z: Seq<u64>,
    h: spec_fn([u64; 4], [u64; 8]) -> [u64; 4],
)
    requires
        rows.len() == 2,
    ensures
        satisfied(rows, z, h) <==> {
            &&& rows[0].holds(z, h)
            &&& rows[1].holds(z, h)
        },
{
    if satisfied(rows, z, h) {
        assert(rows[0].holds(z, h));
        assert(rows[1].holds(z, h));
    }
}

pub(crate) proof fn lemma_rows3(
    rows: Seq<Equation>,
    z: Seq<u64>,
    h: spec_fn([u64; 4], [u64; 8]) -> [u64; 4],
)
    requires
        rows.len() == 3,
    ensures
        satisfied(rows, z, h) <==> {
            &&& rows[0].holds(z, h)
            &&& rows[1].holds(z, h)
            &&& rows[2].holds(z, h)
        },
{
    if satisfied(rows, z, h) {
        assert(rows[0].holds(z, h));
        assert(rows[1].holds(z, h));
        assert(rows[2].holds(z, h));
    }
}

pub(crate) proof fn lemma_rows4(
    rows: Seq<Equation>,
    z: Seq<u64>,
    h: spec_fn([u64; 4], [u64; 8]) -> [u64; 4],
)
    requires
        rows.len() == 4,
    ensures
        satisfied(rows, z, h) <==> {
            &&& rows[0].holds(z, h)
            &&& rows[1].holds(z, h)
            &&& rows[2].holds(z, h)
            &&& rows[3].holds(z, h)
        },
{
    if satisfied(rows, z, h) {
        assert(rows[0].holds(z, h));
        assert(rows[1].holds(z, h));
        assert(rows[2].holds(z, h));
        assert(rows[3].holds(z, h));
    }
}

pub(crate) proof fn lemma_rows5(
    rows: Seq<Equation>,
    z: Seq<u64>,
    h: spec_fn([u64; 4], [u64; 8]) -> [u64; 4],
)
    requires
        rows.len() == 5,
    ensures
        satisfied(rows, z, h) <==> {
            &&& rows[0].holds(z, h)
            &&& rows[1].holds(z, h)
            &&& rows[2].holds(z, h)
            &&& rows[3].holds(z, h)
            &&& rows[4].holds(z, h)
        },
{
    if satisfied(rows, z, h) {
        assert(rows[0].holds(z, h));
        assert(rows[1].holds(z, h));
        assert(rows[2].holds(z, h));
        assert(rows[3].holds(z, h));
        assert(rows[4].holds(z, h));
    }
}

pub(crate) proof fn lemma_rows6(
    rows: Seq<Equation>,
    z: Seq<u64>,
    h: spec_fn([u64; 4], [u64; 8]) -> [u64; 4],
)
    requires
        rows.len() == 6,
    ensures
        satisfied(rows, z, h) <==> {
            &&& rows[0].holds(z, h)
            &&& rows[1].holds(z, h)
            &&& rows[2].holds(z, h)
            &&& rows[3].holds(z, h)
            &&& rows[4].holds(z, h)
            &&& rows[5].holds(z, h)
        },
{
    if satisfied(rows, z, h) {
        assert(rows[0].holds(z, h));
        assert(rows[1].holds(z, h));
        assert(rows[2].holds(z, h));
        assert(rows[3].holds(z, h));
        assert(rows[4].holds(z, h));
        assert(rows[5].holds(z, h));
    }
}

pub(crate) proof fn lemma_rows7(
    rows: Seq<Equation>,
    z: Seq<u64>,
    h: spec_fn([u64; 4], [u64; 8]) -> [u64; 4],
)
    requires
        rows.len() == 7,
    ensures
        satisfied(rows, z, h) <==> {
            &&& rows[0].holds(z, h)
            &&& rows[1].holds(z, h)
            &&& rows[2].holds(z, h)
            &&& rows[3].holds(z, h)
            &&& rows[4].holds(z, h)
            &&& rows[5].holds(z, h)
            &&& rows[6].holds(z, h)
        },
{
    if satisfied(rows, z, h) {
        assert(rows[0].holds(z, h));
        assert(rows[1].holds(z, h));
        assert(rows[2].holds(z, h));
        assert(rows[3].holds(z, h));
        assert(rows[4].holds(z, h));
        assert(rows[5].holds(z, h));
        assert(rows[6].holds(z, h));
    }
}

pub(crate) proof fn lemma_rows8(
    rows: Seq<Equation>,
    z: Seq<u64>,
    h: spec_fn([u64; 4], [u64; 8]) -> [u64; 4],
)
    requires
        rows.len() == 8,
    ensures
        satisfied(rows, z, h) <==> {
            &&& rows[0].holds(z, h)
            &&& rows[1].holds(z, h)
            &&& rows[2].holds(z, h)
            &&& rows[3].holds(z, h)
            &&& rows[4].holds(z, h)
            &&& rows[5].holds(z, h)
            &&& rows[6].holds(z, h)
            &&& rows[7].holds(z, h)
        },
{
    if satisfied(rows, z, h) {
        assert(rows[0].holds(z, h));
        assert(rows[1].holds(z, h));
        assert(rows[2].holds(z, h));
        assert(rows[3].holds(z, h));
        assert(rows[4].holds(z, h));
        assert(rows[5].holds(z, h));
        assert(rows[6].holds(z, h));
        assert(rows[7].holds(z, h));
    }
}

pub(crate) proof fn lemma_rows9(
    rows: Seq<Equation>,
    z: Seq<u64>,
    h: spec_fn([u64; 4], [u64; 8]) -> [u64; 4],
)
    requires
        rows.len() == 9,
    ensures
        satisfied(rows, z, h) <==> {
            &&& rows[0].holds(z, h)
            &&& rows[1].holds(z, h)
            &&& rows[2].holds(z, h)
            &&& rows[3].holds(z, h)
            &&& rows[4].holds(z, h)
            &&& rows[5].holds(z, h)
            &&& rows[6].holds(z, h)
            &&& rows[7].holds(z, h)
            &&& rows[8].holds(z, h)
        },
{
    if satisfied(rows, z, h) {
        assert(rows[0].holds(z, h));
        assert(rows[1].holds(z, h));
        assert(rows[2].holds(z, h));
        assert(rows[3].holds(z, h));
        assert(rows[4].holds(z, h));
        assert(rows[5].holds(z, h));
        assert(rows[6].holds(z, h));
        assert(rows[7].holds(z, h));
        assert(rows[8].holds(z, h));
    }
}

pub(crate) proof fn lemma_rows10(
    rows: Seq<Equation>,
    z: Seq<u64>,
    h: spec_fn([u64; 4], [u64; 8]) -> [u64; 4],
)
    requires
        rows.len() == 10,
    ensures
        satisfied(rows, z, h) <==> {
            &&& rows[0].holds(z, h)
            &&& rows[1].holds(z, h)
            &&& rows[2].holds(z, h)
            &&& rows[3].holds(z, h)
            &&& rows[4].holds(z, h)
            &&& rows[5].holds(z, h)
            &&& rows[6].holds(z, h)
            &&& rows[7].holds(z, h)
            &&& rows[8].holds(z, h)
            &&& rows[9].holds(z, h)
        },
{
    if satisfied(rows, z, h) {
        assert(rows[0].holds(z, h));
        assert(rows[1].holds(z, h));
        assert(rows[2].holds(z, h));
        assert(rows[3].holds(z, h));
        assert(rows[4].holds(z, h));
        assert(rows[5].holds(z, h));
        assert(rows[6].holds(z, h));
        assert(rows[7].holds(z, h));
        assert(rows[8].holds(z, h));
        assert(rows[9].holds(z, h));
    }
}

pub(crate) proof fn lemma_rows12(
    rows: Seq<Equation>,
    z: Seq<u64>,
    h: spec_fn([u64; 4], [u64; 8]) -> [u64; 4],
)
    requires
        rows.len() == 12,
    ensures
        satisfied(rows, z, h) <==> {
            &&& rows[0].holds(z, h)
            &&& rows[1].holds(z, h)
            &&& rows[2].holds(z, h)
            &&& rows[3].holds(z, h)
            &&& rows[4].holds(z, h)
            &&& rows[5].holds(z, h)
            &&& rows[6].holds(z, h)
            &&& rows[7].holds(z, h)
            &&& rows[8].holds(z, h)
            &&& rows[9].holds(z, h)
            &&& rows[10].holds(z, h)
            &&& rows[11].holds(z, h)
        },
{
    if satisfied(rows, z, h) {
        assert(rows[0].holds(z, h));
        assert(rows[1].holds(z, h));
        assert(rows[2].holds(z, h));
        assert(rows[3].holds(z, h));
        assert(rows[4].holds(z, h));
        assert(rows[5].holds(z, h));
        assert(rows[6].holds(z, h));
        assert(rows[7].holds(z, h));
        assert(rows[8].holds(z, h));
        assert(rows[9].holds(z, h));
        assert(rows[10].holds(z, h));
        assert(rows[11].holds(z, h));
    }
}

/// The remaining outputs are in range exactly where the cursor is below the allocator.
pub(crate) proof fn lemma_scan_row(
    z: Seq<u64>,
    w: Wit,
    h: spec_fn([u64; 4], [u64; 8]) -> [u64; 4],
    op: Opcode,
)
    requires
        shows(z, w),
        ranged(z),
        w.opcode == op,
        op.scans_output(),
    ensures
        crate::transaction::scan_rows(op)[1].holds(z, h),
        w.tx_before.output_cursor < w.next_utxo_id_before,
{
    let terms = seq![
        (COL_OUTPUT_REMAINING, 1i64),
        (COL_NEXT_UTXO_ID_BEFORE, -1i64),
        (COL_OUTPUT_CURSOR_BEFORE, 1i64),
        (COL_ONE, 1i64),
    ];
    lemma_opcode_row("transaction boundaries", terms, z, h, op, op);
    lemma_sum4(
        z,
        COL_OUTPUT_REMAINING,
        1,
        COL_NEXT_UTXO_ID_BEFORE,
        -1i64,
        COL_OUTPUT_CURSOR_BEFORE,
        1,
        COL_ONE,
        1,
    );
    assert(column_ranged(z, COL_OUTPUT_REMAINING as int));
    lemma2_to64();
    let x = w.next_utxo_id_before - w.tx_before.output_cursor - 1;
    let p = crate::field::FIELD_MODULUS as int;
    if x < 0 {
        vstd::arithmetic::div_mod::lemma_fundamental_div_mod_converse(x, p, -1, x + p);
    } else {
        vstd::arithmetic::div_mod::lemma_small_mod(x as nat, p as nat);
    }
}

/// What [`new_utxo_rows`] says of a step.
pub open spec fn rule_new_utxo(w: Wit) -> bool {
    w.opcode == Opcode::NewUtxo ==> {
        &&& kind_of(w.curr_before) == CoroutineKind::Coord
        &&& w.curr_phase_before == CurrPhase::Executing
        &&& w.curr_phase_after == CurrPhase::CtorEnterPending
        &&& w.call_target == CoroutineId::Utxo(w.next_utxo_id_before)
        &&& w.pending_ctor_key_before is None
        &&& w.pending_ctor_key_after == Some((w.curr_before, w.resolver_address.1))
        &&& w.resolver_address.0 == w.curr_before
    }
}

pub(crate) proof fn lemma_new_utxo(z: Seq<u64>, w: Wit, h: spec_fn([u64; 4], [u64; 8]) -> [u64; 4])
    requires
        shows(z, w),
        ranged(z),
    ensures
        satisfied(new_utxo_rows(), z, h) <==> rule_new_utxo(w),
{
    let op = Opcode::NewUtxo;
    let label = "new utxo constraints";
    let rows = new_utxo_rows();
    if w.opcode != op {
        assert forall|i: int| 0 <= i < rows.len() implies #[trigger] closed_by(
            rows[i],
            op.selector(),
        ) by {}
        lemma_closed(rows, z, h, op, w.opcode);
    } else {
        lemma_kind_row(label, z, h, op, op, COL_CURR_BEFORE, w.curr_before, CoroutineKind::Coord);
        lemma_constant_row(label, z, h, op, op, COL_CURR_PHASE_BEFORE, 0);
        lemma_constant_row(label, z, h, op, op, COL_CURR_PHASE_AFTER, 1);
        lemma_three_row(label, z, h, op, op, COL_CALL_TARGET, COL_NEXT_UTXO_ID_BEFORE, -2i64, -1i64);
        let present = COL_PENDING_CTOR_PRESENT_BEFORE;
        lemma_opcode_row(label, seq![(present, 1i64)], z, h, op, op);
        lemma_sum1(z, present, 1);
        if vanishes(value_of(z, present) as int) {
            lemma_small_zero(value_of(z, present) as int);
        }
        lemma_constant_row(label, z, h, op, op, COL_PENDING_CTOR_PRESENT_AFTER, 1);
        let handle = COL_RESOURCE_RESOLVER_ADDR_HANDLE;
        lemma_equal_row(label, z, h, op, op, COL_PENDING_CTOR_HOLDER_AFTER, COL_CURR_BEFORE);
        lemma_equal_row(label, z, h, op, op, COL_PENDING_CTOR_HANDLE_AFTER, handle);
        lemma_equal_row(label, z, h, op, op, COL_RESOURCE_RESOLVER_ADDR_CID, COL_CURR_BEFORE);
        lemma_packed_injective(w.call_target, CoroutineId::Utxo(w.next_utxo_id_before));
        lemma_packed_injective(w.resolver_address.0, w.curr_before);
        match w.pending_ctor_key_after {
            Some((holder, _)) => {
                lemma_packed_injective(holder, w.curr_before);
            },
            None => {},
        }
        lemma_rows9(rows, z, h);
    }
}

/// What [`enter_constructor_rows`] says of a step.
pub open spec fn rule_enter_constructor(w: Wit) -> bool {
    w.opcode == Opcode::EnterConstructor ==> {
        &&& kind_of(w.curr_before) == CoroutineKind::Utxo
        &&& w.curr_phase_before == CurrPhase::CtorEnterPending
        &&& w.curr_phase_after == CurrPhase::Yield
        &&& w.pending_ctor_key_before is Some
        &&& w.pending_ctor_key_after == w.pending_ctor_key_before
    }
}

pub(crate) proof fn lemma_enter_constructor(z: Seq<u64>, w: Wit, h: spec_fn([u64; 4], [u64; 8]) -> [u64; 4])
    requires
        shows(z, w),
        ranged(z),
    ensures
        satisfied(enter_constructor_rows(), z, h) <==> rule_enter_constructor(w),
{
    let op = Opcode::EnterConstructor;
    let label = "enter constructor constraints";
    let rows = enter_constructor_rows();
    if w.opcode != op {
        assert forall|i: int| 0 <= i < rows.len() implies #[trigger] closed_by(
            rows[i],
            op.selector(),
        ) by {}
        lemma_closed(rows, z, h, op, w.opcode);
    } else {
        lemma_kind_row(label, z, h, op, op, COL_CURR_BEFORE, w.curr_before, CoroutineKind::Utxo);
        lemma_constant_row(label, z, h, op, op, COL_CURR_PHASE_BEFORE, 1);
        lemma_constant_row(label, z, h, op, op, COL_CURR_PHASE_AFTER, 3);
        lemma_constant_row(label, z, h, op, op, COL_PENDING_CTOR_PRESENT_BEFORE, 1);
        lemma_equal_row(
            label,
            z,
            h,
            op,
            op,
            COL_PENDING_CTOR_PRESENT_AFTER,
            COL_PENDING_CTOR_PRESENT_BEFORE,
        );
        lemma_equal_row(
            label,
            z,
            h,
            op,
            op,
            COL_PENDING_CTOR_HOLDER_AFTER,
            COL_PENDING_CTOR_HOLDER_BEFORE,
        );
        lemma_equal_row(
            label,
            z,
            h,
            op,
            op,
            COL_PENDING_CTOR_HANDLE_AFTER,
            COL_PENDING_CTOR_HANDLE_BEFORE,
        );
        lemma_pending_key(w);
        lemma_rows7(rows, z, h);
    }
}

/// What [`yield_begin_rows`] says of a step.
pub open spec fn rule_yield_begin(w: Wit) -> bool {
    w.opcode == Opcode::YieldBegin ==> {
        &&& kind_of(w.curr_before) == CoroutineKind::Utxo
        &&& w.curr_phase_before == CurrPhase::Executing
        &&& w.curr_phase_after == CurrPhase::Yield
        &&& w.abi_generation_address == w.curr_before
        &&& w.abi_generation_after == w.abi_generation_before + 1
        &&& w.pending_ctor_key_after == w.pending_ctor_key_before
    }
}

pub(crate) proof fn lemma_yield_begin(z: Seq<u64>, w: Wit, h: spec_fn([u64; 4], [u64; 8]) -> [u64; 4])
    requires
        shows(z, w),
        ranged(z),
    ensures
        satisfied(yield_begin_rows(), z, h) <==> rule_yield_begin(w),
{
    let op = Opcode::YieldBegin;
    let label = "yield begin constraints";
    let rows = yield_begin_rows();
    if w.opcode != op {
        assert forall|i: int| 0 <= i < rows.len() implies #[trigger] closed_by(
            rows[i],
            op.selector(),
        ) by {}
        lemma_closed(rows, z, h, op, w.opcode);
    } else {
        lemma_kind_row(label, z, h, op, op, COL_CURR_BEFORE, w.curr_before, CoroutineKind::Utxo);
        lemma_constant_row(label, z, h, op, op, COL_CURR_PHASE_BEFORE, 0);
        lemma_constant_row(label, z, h, op, op, COL_CURR_PHASE_AFTER, 3);
        lemma_equal_row(label, z, h, op, op, COL_ABI_GENERATION_ADDR, COL_CURR_BEFORE);
        lemma_three_row(
            label,
            z,
            h,
            op,
            op,
            COL_ABI_GENERATION_AFTER,
            COL_ABI_GENERATION_BEFORE,
            -1i64,
            -1i64,
        );
        lemma_equal_row(
            label,
            z,
            h,
            op,
            op,
            COL_PENDING_CTOR_PRESENT_AFTER,
            COL_PENDING_CTOR_PRESENT_BEFORE,
        );
        lemma_equal_row(
            label,
            z,
            h,
            op,
            op,
            COL_PENDING_CTOR_HOLDER_AFTER,
            COL_PENDING_CTOR_HOLDER_BEFORE,
        );
        lemma_equal_row(
            label,
            z,
            h,
            op,
            op,
            COL_PENDING_CTOR_HANDLE_AFTER,
            COL_PENDING_CTOR_HANDLE_BEFORE,
        );
        lemma_pending_key(w);
        lemma_packed_injective(w.abi_generation_address, w.curr_before);
        lemma_rows8(rows, z, h);
    }
}

/// What [`register_method_rows`] says of a step.
pub open spec fn rule_register_method(w: Wit) -> bool {
    w.opcode == Opcode::RegisterMethod ==> {
        &&& kind_of(w.curr_before) == CoroutineKind::Utxo
        &&& w.curr_phase_before == CurrPhase::Yield
        &&& w.curr_phase_after == CurrPhase::Yield
        &&& w.abi_generation_address == w.curr_before
        &&& w.enabled_method_log_address == w.enabled_method_log_len_before
        &&& w.enabled_method_log_utxo == w.curr_before
        &&& w.enabled_method_log_generation == w.abi_generation_before
        &&& w.pending_ctor_key_after == w.pending_ctor_key_before
    }
}

pub(crate) proof fn lemma_register_method(z: Seq<u64>, w: Wit, h: spec_fn([u64; 4], [u64; 8]) -> [u64; 4])
    requires
        shows(z, w),
        ranged(z),
    ensures
        satisfied(register_method_rows(), z, h) <==> rule_register_method(w),
{
    let op = Opcode::RegisterMethod;
    let label = "register method constraints";
    let rows = register_method_rows();
    if w.opcode != op {
        assert forall|i: int| 0 <= i < rows.len() implies #[trigger] closed_by(
            rows[i],
            op.selector(),
        ) by {}
        lemma_closed(rows, z, h, op, w.opcode);
    } else {
        lemma_kind_row(label, z, h, op, op, COL_CURR_BEFORE, w.curr_before, CoroutineKind::Utxo);
        lemma_constant_row(label, z, h, op, op, COL_CURR_PHASE_BEFORE, 3);
        lemma_constant_row(label, z, h, op, op, COL_CURR_PHASE_AFTER, 3);
        lemma_equal_row(label, z, h, op, op, COL_ABI_GENERATION_ADDR, COL_CURR_BEFORE);
        lemma_equal_row(
            label,
            z,
            h,
            op,
            op,
            COL_ENABLED_METHOD_LOG_ADDR,
            COL_ENABLED_METHOD_LOG_LEN_BEFORE,
        );
        lemma_equal_row(label, z, h, op, op, COL_ENABLED_METHOD_LOG_UTXO, COL_CURR_BEFORE);
        lemma_equal_row(
            label,
            z,
            h,
            op,
            op,
            COL_ENABLED_METHOD_LOG_GENERATION,
            COL_ABI_GENERATION_BEFORE,
        );
        lemma_equal_row(
            label,
            z,
            h,
            op,
            op,
            COL_PENDING_CTOR_PRESENT_AFTER,
            COL_PENDING_CTOR_PRESENT_BEFORE,
        );
        lemma_equal_row(
            label,
            z,
            h,
            op,
            op,
            COL_PENDING_CTOR_HOLDER_AFTER,
            COL_PENDING_CTOR_HOLDER_BEFORE,
        );
        lemma_equal_row(
            label,
            z,
            h,
            op,
            op,
            COL_PENDING_CTOR_HANDLE_AFTER,
            COL_PENDING_CTOR_HANDLE_BEFORE,
        );
        lemma_pending_key(w);
        lemma_packed_injective(w.abi_generation_address, w.curr_before);
        lemma_packed_injective(w.enabled_method_log_utxo, w.curr_before);
        lemma_rows10(rows, z, h);
    }
}

/// What [`call_method_rows`] says of a step.
pub open spec fn rule_call_method(w: Wit) -> bool {
    w.opcode == Opcode::CallMethod ==> {
        &&& kind_of(w.curr_before) == CoroutineKind::Coord
        &&& kind_of(w.call_target) == CoroutineKind::Utxo
        &&& w.curr_phase_before == CurrPhase::Executing
        &&& w.curr_phase_after == CurrPhase::MethodEnterPending
        &&& w.resolver_address.0 == w.curr_before
        &&& w.resolver_value == w.call_target
        &&& w.abi_generation_address == w.call_target
        &&& w.enabled_method_log_utxo == w.call_target
        &&& w.enabled_method_log_generation == w.abi_generation_before
        &&& w.pending_ctor_key_after == w.pending_ctor_key_before
    }
}

pub(crate) proof fn lemma_call_method(z: Seq<u64>, w: Wit, h: spec_fn([u64; 4], [u64; 8]) -> [u64; 4])
    requires
        shows(z, w),
        ranged(z),
    ensures
        satisfied(call_method_rows(), z, h) <==> rule_call_method(w),
{
    let op = Opcode::CallMethod;
    let label = "call method constraints";
    let rows = call_method_rows();
    if w.opcode != op {
        assert forall|i: int| 0 <= i < rows.len() implies #[trigger] closed_by(
            rows[i],
            op.selector(),
        ) by {}
        lemma_closed(rows, z, h, op, w.opcode);
    } else {
        lemma_kind_row(label, z, h, op, op, COL_CURR_BEFORE, w.curr_before, CoroutineKind::Coord);
        lemma_kind_row(label, z, h, op, op, COL_CALL_TARGET, w.call_target, CoroutineKind::Utxo);
        lemma_constant_row(label, z, h, op, op, COL_CURR_PHASE_BEFORE, 0);
        lemma_constant_row(label, z, h, op, op, COL_CURR_PHASE_AFTER, 2);
        lemma_equal_row(label, z, h, op, op, COL_RESOURCE_RESOLVER_ADDR_CID, COL_CURR_BEFORE);
        lemma_equal_row(label, z, h, op, op, COL_RESOURCE_RESOLVER_VALUE, COL_CALL_TARGET);
        lemma_equal_row(label, z, h, op, op, COL_ABI_GENERATION_ADDR, COL_CALL_TARGET);
        lemma_equal_row(label, z, h, op, op, COL_ENABLED_METHOD_LOG_UTXO, COL_CALL_TARGET);
        lemma_equal_row(
            label,
            z,
            h,
            op,
            op,
            COL_ENABLED_METHOD_LOG_GENERATION,
            COL_ABI_GENERATION_BEFORE,
        );
        lemma_equal_row(
            label,
            z,
            h,
            op,
            op,
            COL_PENDING_CTOR_PRESENT_AFTER,
            COL_PENDING_CTOR_PRESENT_BEFORE,
        );
        lemma_equal_row(
            label,
            z,
            h,
            op,
            op,
            COL_PENDING_CTOR_HOLDER_AFTER,
            COL_PENDING_CTOR_HOLDER_BEFORE,
        );
        lemma_equal_row(
            label,
            z,
            h,
            op,
            op,
            COL_PENDING_CTOR_HANDLE_AFTER,
            COL_PENDING_CTOR_HANDLE_BEFORE,
        );
        lemma_pending_key(w);
        lemma_packed_injective(w.resolver_address.0, w.curr_before);
        lemma_packed_injective(w.resolver_value, w.call_target);
        lemma_packed_injective(w.abi_generation_address, w.call_target);
        lemma_packed_injective(w.enabled_method_log_utxo, w.call_target);
        lemma_rows12(rows, z, h);
    }
}

/// What [`enter_method_rows`] says of a step.
pub open spec fn rule_enter_method(w: Wit) -> bool {
    w.opcode == Opcode::EnterMethod ==> {
        &&& kind_of(w.curr_before) == CoroutineKind::Utxo
        &&& w.curr_phase_before == CurrPhase::MethodEnterPending
        &&& w.curr_phase_after == CurrPhase::Executing
        &&& w.pending_ctor_key_after == w.pending_ctor_key_before
    }
}

pub(crate) proof fn lemma_enter_method(z: Seq<u64>, w: Wit, h: spec_fn([u64; 4], [u64; 8]) -> [u64; 4])
    requires
        shows(z, w),
        ranged(z),
    ensures
        satisfied(enter_method_rows(), z, h) <==> rule_enter_method(w),
{
    let op = Opcode::EnterMethod;
    let label = "enter method constraints";
    let rows = enter_method_rows();
    if w.opcode != op {
        assert forall|i: int| 0 <= i < rows.len() implies #[trigger] closed_by(
            rows[i],
            op.selector(),
        ) by {}
        lemma_closed(rows, z, h, op, w.opcode);
    } else {
        lemma_kind_row(label, z, h, op, op, COL_CURR_BEFORE, w.curr_before, CoroutineKind::Utxo);
        lemma_constant_row(label, z, h, op, op, COL_CURR_PHASE_BEFORE, 2);
        lemma_constant_row(label, z, h, op, op, COL_CURR_PHASE_AFTER, 0);
        lemma_equal_row(
            label,
            z,
            h,
            op,
            op,
            COL_PENDING_CTOR_PRESENT_AFTER,
            COL_PENDING_CTOR_PRESENT_BEFORE,
        );
        lemma_equal_row(
            label,
            z,
            h,
            op,
            op,
            COL_PENDING_CTOR_HOLDER_AFTER,
            COL_PENDING_CTOR_HOLDER_BEFORE,
        );
        lemma_equal_row(
            label,
            z,
            h,
            op,
            op,
            COL_PENDING_CTOR_HANDLE_AFTER,
            COL_PENDING_CTOR_HANDLE_BEFORE,
        );
        lemma_pending_key(w);
        lemma_rows6(rows, z, h);
    }
}

/// What [`yield_begin_boundary`] says of a step.
pub open spec fn rule_yield_boundary(w: Wit) -> bool {
    w.opcode == Opcode::YieldBegin ==> {
        &&& w.abi_method_count_after == 0
    }
}

pub(crate) proof fn lemma_yield_boundary(z: Seq<u64>, w: Wit, h: spec_fn([u64; 4], [u64; 8]) -> [u64; 4])
    requires
        shows(z, w),
        ranged(z),
    ensures
        satisfied(yield_begin_boundary(), z, h) <==> rule_yield_boundary(w),
{
    let op = Opcode::YieldBegin;
    let label = "transaction boundaries";
    let rows = yield_begin_boundary();
    if w.opcode != op {
        assert forall|i: int| 0 <= i < rows.len() implies #[trigger] closed_by(
            rows[i],
            op.selector(),
        ) by {}
        lemma_closed(rows, z, h, op, w.opcode);
    } else {
        lemma_equal_row(label, z, h, op, op, COL_ABI_METHOD_COUNT_ADDR, COL_ABI_GENERATION_ADDR);
        lemma_constant_row(label, z, h, op, op, COL_ABI_METHOD_COUNT_AFTER, 0);
        lemma_rows2(rows, z, h);
    }
}

/// What [`append_rows`] says of a step.
pub open spec fn rule_append(w: Wit) -> bool {
    w.opcode == Opcode::RegisterMethod ==> {
        &&& w.abi_method_count_after == w.abi_method_count_before + 1
    }
}

pub(crate) proof fn lemma_append(z: Seq<u64>, w: Wit, h: spec_fn([u64; 4], [u64; 8]) -> [u64; 4])
    requires
        shows(z, w),
        ranged(z),
    ensures
        satisfied(append_rows(Opcode::RegisterMethod), z, h) <==> rule_append(w),
{
    let op = Opcode::RegisterMethod;
    let label = "transaction boundaries";
    let rows = append_rows(Opcode::RegisterMethod);
    if w.opcode != op {
        assert forall|i: int| 0 <= i < rows.len() implies #[trigger] closed_by(
            rows[i],
            op.selector(),
        ) by {}
        lemma_closed(rows, z, h, op, w.opcode);
    } else {
        lemma_equal_row(label, z, h, op, op, COL_ABI_METHOD_COUNT_ADDR, COL_ABI_GENERATION_ADDR);
        lemma_three_row(
            label,
            z,
            h,
            op,
            op,
            COL_ABI_METHOD_COUNT_AFTER,
            COL_ABI_METHOD_COUNT_BEFORE,
            -1i64,
            -1i64,
        );
        lemma_equal_row(
            label,
            z,
            h,
            op,
            op,
            COL_ENABLED_METHOD_LOG_ORDINAL,
            COL_ABI_METHOD_COUNT_BEFORE,
        );
        lemma_rows3(rows, z, h);
    }
}

/// What [`set_storage_boundary`] says of a step.
pub open spec fn rule_set_storage(w: Wit) -> bool {
    w.opcode == Opcode::SetStorage ==> {
        &&& w.tx_before.last_input_has_abi
        &&& !w.tx_after.last_input_has_abi
        &&& w.boundary_utxo == CoroutineId::Utxo(w.next_utxo_id_before)
        &&& w.resolver_address.0 == w.curr_before
        &&& w.resolver_value == w.boundary_utxo
    }
}

pub(crate) proof fn lemma_set_storage(z: Seq<u64>, w: Wit, h: spec_fn([u64; 4], [u64; 8]) -> [u64; 4])
    requires
        shows(z, w),
        ranged(z),
    ensures
        satisfied(set_storage_boundary(), z, h) <==> rule_set_storage(w),
{
    let op = Opcode::SetStorage;
    let label = "transaction boundaries";
    let rows = set_storage_boundary();
    if w.opcode != op {
        assert forall|i: int| 0 <= i < rows.len() implies #[trigger] closed_by(
            rows[i],
            op.selector(),
        ) by {}
        lemma_closed(rows, z, h, op, w.opcode);
    } else {
        lemma_constant_row(label, z, h, op, op, COL_LAST_INPUT_HAS_ABI_BEFORE, 1);
        lemma_constant_row(label, z, h, op, op, COL_LAST_INPUT_HAS_ABI_AFTER, 0);
        lemma_three_row(
            label,
            z,
            h,
            op,
            op,
            COL_BOUNDARY_UTXO,
            COL_NEXT_UTXO_ID_BEFORE,
            -2i64,
            -1i64,
        );
        lemma_equal_row(label, z, h, op, op, COL_RESOURCE_RESOLVER_ADDR_CID, COL_CURR_BEFORE);
        lemma_equal_row(label, z, h, op, op, COL_RESOURCE_RESOLVER_VALUE, COL_BOUNDARY_UTXO);
        lemma_packed_injective(w.boundary_utxo, CoroutineId::Utxo(w.next_utxo_id_before));
        lemma_packed_injective(w.resolver_address.0, w.curr_before);
        lemma_packed_injective(w.resolver_value, w.boundary_utxo);
        lemma_rows5(rows, z, h);
    }
}

/// What [`preload_method_boundary`] says of a step.
pub open spec fn rule_preload_method(w: Wit) -> bool {
    w.opcode == Opcode::PreloadMethod ==> {
        &&& w.tx_after.last_input_has_abi
        &&& w.boundary_utxo.packed() + 1 == 2 * w.next_utxo_id_before
        &&& w.abi_generation_address == w.boundary_utxo
        &&& w.enabled_method_log_utxo == w.boundary_utxo
        &&& w.enabled_method_log_generation == w.abi_generation_before
        &&& w.enabled_method_log_address == w.enabled_method_log_len_before
        &&& w.abi_method_count_after == w.abi_method_count_before + 1
    }
}

pub(crate) proof fn lemma_preload_method(z: Seq<u64>, w: Wit, h: spec_fn([u64; 4], [u64; 8]) -> [u64; 4])
    requires
        shows(z, w),
        ranged(z),
    ensures
        satisfied(preload_method_boundary(), z, h) <==> rule_preload_method(w),
{
    let op = Opcode::PreloadMethod;
    let label = "transaction boundaries";
    let rows = preload_method_boundary();
    if w.opcode != op {
        assert forall|i: int| 0 <= i < rows.len() implies #[trigger] closed_by(
            rows[i],
            op.selector(),
        ) by {}
        lemma_closed(rows, z, h, op, w.opcode);
    } else {
        lemma_constant_row(label, z, h, op, op, COL_LAST_INPUT_HAS_ABI_AFTER, 1);
        lemma_three_row(
            label,
            z,
            h,
            op,
            op,
            COL_BOUNDARY_UTXO,
            COL_NEXT_UTXO_ID_BEFORE,
            -2i64,
            1,
        );
        lemma_equal_row(label, z, h, op, op, COL_ABI_GENERATION_ADDR, COL_BOUNDARY_UTXO);
        lemma_equal_row(label, z, h, op, op, COL_ENABLED_METHOD_LOG_UTXO, COL_BOUNDARY_UTXO);
        lemma_equal_row(
            label,
            z,
            h,
            op,
            op,
            COL_ENABLED_METHOD_LOG_GENERATION,
            COL_ABI_GENERATION_BEFORE,
        );
        lemma_equal_row(
            label,
            z,
            h,
            op,
            op,
            COL_ENABLED_METHOD_LOG_ADDR,
            COL_ENABLED_METHOD_LOG_LEN_BEFORE,
        );
        lemma_equal_row(label, z, h, op, op, COL_ABI_METHOD_COUNT_ADDR, COL_ABI_GENERATION_ADDR);
        lemma_three_row(
            label,
            z,
            h,
            op,
            op,
            COL_ABI_METHOD_COUNT_AFTER,
            COL_ABI_METHOD_COUNT_BEFORE,
            -1i64,
            -1i64,
        );
        lemma_equal_row(
            label,
            z,
            h,
            op,
            op,
            COL_ENABLED_METHOD_LOG_ORDINAL,
            COL_ABI_METHOD_COUNT_BEFORE,
        );
        lemma_packed_injective(w.abi_generation_address, w.boundary_utxo);
        lemma_packed_injective(w.enabled_method_log_utxo, w.boundary_utxo);
        lemma_rows9(rows, z, h);
    }
}

/// What [`get_storage_boundary`] says of a step.
pub open spec fn rule_get_storage(w: Wit) -> bool {
    w.opcode == Opcode::GetStorage ==> {
        &&& w.tx_after.abi_read_remaining == w.abi_method_count_before
        &&& w.tx_after.abi_read_ordinal == 0
        &&& w.boundary_utxo == CoroutineId::Utxo(w.tx_before.output_cursor)
        &&& w.tx_before.output_cursor < w.next_utxo_id_before
    }
}

pub(crate) proof fn lemma_get_storage(z: Seq<u64>, w: Wit, h: spec_fn([u64; 4], [u64; 8]) -> [u64; 4])
    requires
        shows(z, w),
        ranged(z),
    ensures
        satisfied(get_storage_boundary(), z, h) <==> rule_get_storage(w),
{
    let op = Opcode::GetStorage;
    let label = "transaction boundaries";
    let rows = get_storage_boundary();
    if w.opcode != op {
        assert forall|i: int| 0 <= i < rows.len() implies #[trigger] closed_by(
            rows[i],
            op.selector(),
        ) by {}
        lemma_closed(rows, z, h, op, w.opcode);
    } else {
        lemma_equal_row(
            label,
            z,
            h,
            op,
            op,
            COL_ABI_READ_REMAINING_AFTER,
            COL_ABI_METHOD_COUNT_BEFORE,
        );
        lemma_constant_row(label, z, h, op, op, COL_ABI_READ_ORDINAL_AFTER, 0);
        lemma_three_row(
            label,
            z,
            h,
            op,
            op,
            COL_BOUNDARY_UTXO,
            COL_OUTPUT_CURSOR_BEFORE,
            -2i64,
            -1i64,
        );
        lemma_scan_row(z, w, h, op);
        lemma_equal_row(label, z, h, op, op, COL_ABI_METHOD_COUNT_ADDR, COL_BOUNDARY_UTXO);
        lemma_packed_injective(w.boundary_utxo, CoroutineId::Utxo(w.tx_before.output_cursor));
        lemma_rows5(rows, z, h);
    }
}

/// What [`skip_consumed_boundary`] says of a step.
pub open spec fn rule_skip_consumed(w: Wit) -> bool {
    w.opcode == Opcode::SkipConsumed ==> {
        &&& w.abi_method_count_before == 0
        &&& w.boundary_utxo == CoroutineId::Utxo(w.tx_before.output_cursor)
        &&& w.tx_before.output_cursor < w.next_utxo_id_before
    }
}

pub(crate) proof fn lemma_skip_consumed(z: Seq<u64>, w: Wit, h: spec_fn([u64; 4], [u64; 8]) -> [u64; 4])
    requires
        shows(z, w),
        ranged(z),
    ensures
        satisfied(skip_consumed_boundary(), z, h) <==> rule_skip_consumed(w),
{
    let op = Opcode::SkipConsumed;
    let label = "transaction boundaries";
    let rows = skip_consumed_boundary();
    if w.opcode != op {
        assert forall|i: int| 0 <= i < rows.len() implies #[trigger] closed_by(
            rows[i],
            op.selector(),
        ) by {}
        lemma_closed(rows, z, h, op, w.opcode);
    } else {
        lemma_three_row(
            label,
            z,
            h,
            op,
            op,
            COL_BOUNDARY_UTXO,
            COL_OUTPUT_CURSOR_BEFORE,
            -2i64,
            -1i64,
        );
        lemma_scan_row(z, w, h, op);
        lemma_equal_row(label, z, h, op, op, COL_ABI_METHOD_COUNT_ADDR, COL_BOUNDARY_UTXO);
        lemma_constant_row(label, z, h, op, op, COL_ABI_METHOD_COUNT_BEFORE, 0);
        lemma_packed_injective(w.boundary_utxo, CoroutineId::Utxo(w.tx_before.output_cursor));
        lemma_rows4(rows, z, h);
    }
}

/// What [`finish_boundary`] says of a step.
pub open spec fn rule_finish(w: Wit) -> bool {
    w.opcode == Opcode::FinishTransaction ==> {
        &&& w.tx_before.output_cursor == w.next_utxo_id_before
    }
}

pub(crate) proof fn lemma_finish(z: Seq<u64>, w: Wit, h: spec_fn([u64; 4], [u64; 8]) -> [u64; 4])
    requires
        shows(z, w),
        ranged(z),
    ensures
        satisfied(finish_boundary(), z, h) <==> rule_finish(w),
{
    let op = Opcode::FinishTransaction;
    let label = "transaction boundaries";
    let rows = finish_boundary();
    if w.opcode != op {
        assert forall|i: int| 0 <= i < rows.len() implies #[trigger] closed_by(
            rows[i],
            op.selector(),
        ) by {}
        lemma_closed(rows, z, h, op, w.opcode);
    } else {
        lemma_equal_row(label, z, h, op, op, COL_OUTPUT_CURSOR_BEFORE, COL_NEXT_UTXO_ID_BEFORE);
        lemma_rows1(rows, z, h);
    }
}

/// What [`read_abi_boundary`] says of a step.
pub open spec fn rule_read_abi(w: Wit) -> bool {
    w.opcode == Opcode::ReadAbi ==> {
        &&& w.tx_before.abi_read_remaining == w.tx_after.abi_read_remaining + 1
        &&& w.tx_after.abi_read_ordinal == w.tx_before.abi_read_ordinal + 1
        &&& w.boundary_utxo.packed() + 1 == 2 * w.tx_before.output_cursor
        &&& w.abi_generation_address == w.boundary_utxo
        &&& w.enabled_method_log_utxo == w.boundary_utxo
        &&& w.enabled_method_log_generation == w.abi_generation_before
    }
}

pub(crate) proof fn lemma_read_abi(z: Seq<u64>, w: Wit, h: spec_fn([u64; 4], [u64; 8]) -> [u64; 4])
    requires
        shows(z, w),
        ranged(z),
    ensures
        satisfied(read_abi_boundary(), z, h) <==> rule_read_abi(w),
{
    let op = Opcode::ReadAbi;
    let label = "transaction boundaries";
    let rows = read_abi_boundary();
    if w.opcode != op {
        assert forall|i: int| 0 <= i < rows.len() implies #[trigger] closed_by(
            rows[i],
            op.selector(),
        ) by {}
        lemma_closed(rows, z, h, op, w.opcode);
    } else {
        lemma_three_row(
            label,
            z,
            h,
            op,
            op,
            COL_ABI_READ_REMAINING_AFTER,
            COL_ABI_READ_REMAINING_BEFORE,
            -1i64,
            1,
        );
        lemma_three_row(
            label,
            z,
            h,
            op,
            op,
            COL_ABI_READ_ORDINAL_AFTER,
            COL_ABI_READ_ORDINAL_BEFORE,
            -1i64,
            -1i64,
        );
        lemma_three_row(
            label,
            z,
            h,
            op,
            op,
            COL_BOUNDARY_UTXO,
            COL_OUTPUT_CURSOR_BEFORE,
            -2i64,
            1,
        );
        lemma_equal_row(label, z, h, op, op, COL_ABI_GENERATION_ADDR, COL_BOUNDARY_UTXO);
        lemma_equal_row(label, z, h, op, op, COL_ENABLED_METHOD_LOG_UTXO, COL_BOUNDARY_UTXO);
        lemma_equal_row(
            label,
            z,
            h,
            op,
            op,
            COL_ENABLED_METHOD_LOG_GENERATION,
            COL_ABI_GENERATION_BEFORE,
        );
        lemma_equal_row(
            label,
            z,
            h,
            op,
            op,
            COL_ENABLED_METHOD_LOG_ORDINAL,
            COL_ABI_READ_ORDINAL_BEFORE,
        );
        lemma_packed_injective(w.abi_generation_address, w.boundary_utxo);
        lemma_packed_injective(w.enabled_method_log_utxo, w.boundary_utxo);
        lemma_rows7(rows, z, h);
    }
}

} // verus!
