//! Transaction boundaries: loading of inputs, the output scan, and the statement
//! that they are bound to.

use vstd::prelude::*;

use crate::ccs::{constant_row, equal_row, flag_terms, require_constant, require_equal};
use crate::groups::OpcodeGroup;
use crate::ivc_state::TxPhase;
use crate::layout::{
    bit_column, bit_of, COL_ABI_GENERATION_ADDR, COL_ABI_GENERATION_BEFORE,
    COL_ABI_METHOD_COUNT_ADDR, COL_ABI_METHOD_COUNT_AFTER, COL_ABI_METHOD_COUNT_BEFORE,
    COL_ABI_METHOD_COUNT_INVERSE, COL_ABI_METHOD_COUNT_READ, COL_ABI_METHOD_COUNT_WRITE,
    COL_ABI_READ_ORDINAL_AFTER, COL_ABI_READ_ORDINAL_BEFORE, COL_ABI_READ_REMAINING_AFTER,
    COL_ABI_READ_REMAINING_BEFORE, COL_BOUNDARY_UTXO, COL_CALL_SP_BEFORE, COL_CURR_BEFORE,
    COL_ENABLED_METHOD_LOG_ADDR, COL_ENABLED_METHOD_LOG_GENERATION,
    COL_ENABLED_METHOD_LOG_LEN_BEFORE, COL_ENABLED_METHOD_LOG_ORDINAL, COL_ENABLED_METHOD_LOG_UTXO,
    COL_EVENT_ACTIVE, COL_EVENT_OWNER, COL_LAST_INPUT_HAS_ABI_AFTER, COL_LAST_INPUT_HAS_ABI_BEFORE,
    COL_METHOD_APPEND, COL_NEXT_UTXO_ID_BEFORE, COL_ONE, COL_OUTPUT_CURSOR_AFTER,
    COL_OUTPUT_CURSOR_BEFORE, COL_OUTPUT_REMAINING, COL_RESOURCE_RESOLVER_ADDR_CID,
    COL_RESOURCE_RESOLVER_VALUE, COL_SEL_FINISH_TRANSACTION, COL_SEL_GET_STORAGE,
    COL_SEL_PRELOAD_METHOD, COL_SEL_READ_ABI, COL_SEL_SET_STORAGE, COL_SEL_SKIP_CONSUMED,
    COL_TX_PHASE_AFTER, COL_TX_PHASE_BEFORE,
};
use crate::opcode::Opcode;
use crate::relation::{
    gated, linear, product, terms0, terms1, terms2, terms3, terms4, Builder, Equation,
};

verus! {

/// A flag equals the sum of the selectors of a group.
pub open spec fn flag_row(group: OpcodeGroup, flag: usize) -> Equation {
    linear("transaction boundaries", group.selectors().push((flag, -1i64)))
}

/// Where an opcode of a group is selected, a column has a constant value.
pub open spec fn group_constant_row(group: OpcodeGroup, column: usize, value: i64) -> Equation {
    product(
        "transaction boundaries",
        group.selectors(),
        seq![(column, 1i64), (COL_ONE, (-value) as i64)],
        seq![],
    )
}

/// Where an opcode of a group is selected, two columns are equal.
pub open spec fn group_equal_row(group: OpcodeGroup, left: usize, right: usize) -> Equation {
    product(
        "transaction boundaries",
        group.selectors(),
        seq![(left, 1i64), (right, -1i64)],
        seq![],
    )
}

/// Flags and the output cursor.
pub open spec fn boundary_flag_rows() -> Seq<Equation> {
    seq![
        flag_row(OpcodeGroup::AppendsMethod, COL_METHOD_APPEND),
        flag_row(OpcodeGroup::HasEvent, COL_EVENT_ACTIVE),
        flag_row(OpcodeGroup::ScansOutput, COL_ABI_METHOD_COUNT_READ),
        flag_row(OpcodeGroup::WritesCount, COL_ABI_METHOD_COUNT_WRITE),
        linear(
            "transaction boundaries",
            seq![
                (COL_OUTPUT_CURSOR_AFTER, 1i64),
                (COL_OUTPUT_CURSOR_BEFORE, -1i64),
                (COL_SEL_GET_STORAGE, -1i64),
                (COL_SEL_SKIP_CONSUMED, -1i64),
            ],
        ),
    ]
}

/// Phases: execution starts in `Loading` or `Running` and ends in `Running`; loading
/// stays in `Loading`; the output scan starts with an empty call stack and stays in
/// `Running` until the transaction is finished.
pub open spec fn boundary_phase_rows() -> Seq<Equation> {
    let label = "transaction boundaries";
    seq![
        group_constant_row(
            OpcodeGroup::Execution,
            bit_of(COL_TX_PHASE_BEFORE as int, 1) as usize,
            0,
        ),
        group_constant_row(OpcodeGroup::Execution, COL_TX_PHASE_AFTER, 1),
        group_constant_row(OpcodeGroup::Execution, COL_LAST_INPUT_HAS_ABI_BEFORE, 1),
        product(
            label,
            seq![(COL_SEL_SET_STORAGE, 1i64), (COL_SEL_PRELOAD_METHOD, 1i64)],
            seq![(COL_TX_PHASE_BEFORE, 1i64), (COL_ONE, 0i64)],
            seq![],
        ),
        gated(label, COL_SEL_READ_ABI, seq![(COL_TX_PHASE_BEFORE, 1i64), (COL_ONE, -1i64)]),
        product(
            label,
            seq![
                (COL_SEL_SET_STORAGE, 1i64),
                (COL_SEL_PRELOAD_METHOD, 1i64),
                (COL_SEL_READ_ABI, 1i64),
            ],
            seq![(COL_TX_PHASE_AFTER, 1i64), (COL_TX_PHASE_BEFORE, -1i64)],
            seq![],
        ),
        group_equal_row(
            OpcodeGroup::PreservesInputFlag,
            COL_LAST_INPUT_HAS_ABI_AFTER,
            COL_LAST_INPUT_HAS_ABI_BEFORE,
        ),
        group_constant_row(OpcodeGroup::Finalization, COL_TX_PHASE_BEFORE, 1),
        group_constant_row(OpcodeGroup::Finalization, COL_CALL_SP_BEFORE, 0),
        product(
            label,
            OpcodeGroup::Finalization.selectors(),
            seq![(COL_TX_PHASE_AFTER, 1i64), (COL_ONE, -1i64)],
            seq![(COL_SEL_FINISH_TRANSACTION, 1i64)],
        ),
    ]
}

/// ABI enumeration in progress, and the owner of an event.
pub open spec fn boundary_progress_rows() -> Seq<Equation> {
    seq![
        product(
            "transaction boundaries",
            OpcodeGroup::EnumerationDone.selectors(),
            seq![(COL_ABI_READ_REMAINING_BEFORE, 1i64)],
            seq![],
        ),
        group_equal_row(
            OpcodeGroup::PreservesEnumeration,
            COL_ABI_READ_REMAINING_AFTER,
            COL_ABI_READ_REMAINING_BEFORE,
        ),
        group_equal_row(
            OpcodeGroup::PreservesEnumeration,
            COL_ABI_READ_ORDINAL_AFTER,
            COL_ABI_READ_ORDINAL_BEFORE,
        ),
        group_equal_row(OpcodeGroup::StorageEvent, COL_EVENT_OWNER, COL_BOUNDARY_UTXO),
        group_equal_row(OpcodeGroup::OwnEvent, COL_EVENT_OWNER, COL_CURR_BEFORE),
    ]
}

/// Where an opcode is selected, the sum of three terms is zero.
pub open spec fn three_row(
    op: Opcode,
    c0: usize,
    k0: i64,
    c1: usize,
    k1: i64,
    k2: i64,
) -> Equation {
    gated("transaction boundaries", op.selector(), seq![(c0, k0), (c1, k1), (COL_ONE, k2)])
}

/// Two columns are equal where an opcode is selected.
pub open spec fn same_row(op: Opcode, left: usize, right: usize) -> Equation {
    equal_row("transaction boundaries", op, left, right)
}

/// A column has a constant value where an opcode is selected.
pub open spec fn fixed_row(op: Opcode, column: usize, value: i64) -> Equation {
    constant_row("transaction boundaries", op, column, value)
}

/// An append increments the count of the accessed coroutine, and its ordinal is the
/// count before.
pub open spec fn append_rows(op: Opcode) -> Seq<Equation> {
    seq![
        same_row(op, COL_ABI_METHOD_COUNT_ADDR, COL_ABI_GENERATION_ADDR),
        three_row(op, COL_ABI_METHOD_COUNT_AFTER, 1, COL_ABI_METHOD_COUNT_BEFORE, -1i64, -1i64),
        same_row(op, COL_ENABLED_METHOD_LOG_ORDINAL, COL_ABI_METHOD_COUNT_BEFORE),
    ]
}

/// The output scan is at the UTXO of the cursor, which was allocated.
pub open spec fn scan_rows(op: Opcode) -> Seq<Equation> {
    seq![
        three_row(op, COL_BOUNDARY_UTXO, 1, COL_OUTPUT_CURSOR_BEFORE, -2i64, -1i64),
        gated(
            "transaction boundaries",
            op.selector(),
            seq![
                (COL_OUTPUT_REMAINING, 1i64),
                (COL_NEXT_UTXO_ID_BEFORE, -1i64),
                (COL_OUTPUT_CURSOR_BEFORE, 1i64),
                (COL_ONE, 1i64),
            ],
        ),
    ]
}

pub open spec fn yield_begin_boundary() -> Seq<Equation> {
    let op = Opcode::YieldBegin;
    seq![
        same_row(op, COL_ABI_METHOD_COUNT_ADDR, COL_ABI_GENERATION_ADDR),
        fixed_row(op, COL_ABI_METHOD_COUNT_AFTER, 0),
    ]
}

pub open spec fn set_storage_boundary() -> Seq<Equation> {
    let op = Opcode::SetStorage;
    seq![
        fixed_row(op, COL_LAST_INPUT_HAS_ABI_BEFORE, 1),
        fixed_row(op, COL_LAST_INPUT_HAS_ABI_AFTER, 0),
        three_row(op, COL_BOUNDARY_UTXO, 1, COL_NEXT_UTXO_ID_BEFORE, -2i64, -1i64),
        same_row(op, COL_RESOURCE_RESOLVER_ADDR_CID, COL_CURR_BEFORE),
        same_row(op, COL_RESOURCE_RESOLVER_VALUE, COL_BOUNDARY_UTXO),
    ]
}

pub open spec fn preload_method_boundary() -> Seq<Equation> {
    let op = Opcode::PreloadMethod;
    seq![
        fixed_row(op, COL_LAST_INPUT_HAS_ABI_AFTER, 1),
        three_row(op, COL_BOUNDARY_UTXO, 1, COL_NEXT_UTXO_ID_BEFORE, -2i64, 1),
        same_row(op, COL_ABI_GENERATION_ADDR, COL_BOUNDARY_UTXO),
        same_row(op, COL_ENABLED_METHOD_LOG_UTXO, COL_BOUNDARY_UTXO),
        same_row(op, COL_ENABLED_METHOD_LOG_GENERATION, COL_ABI_GENERATION_BEFORE),
        same_row(op, COL_ENABLED_METHOD_LOG_ADDR, COL_ENABLED_METHOD_LOG_LEN_BEFORE),
    ] + append_rows(op)
}

pub open spec fn get_storage_boundary() -> Seq<Equation> {
    let op = Opcode::GetStorage;
    seq![
        same_row(op, COL_ABI_READ_REMAINING_AFTER, COL_ABI_METHOD_COUNT_BEFORE),
        fixed_row(op, COL_ABI_READ_ORDINAL_AFTER, 0),
    ] + scan_rows(op) + seq![same_row(op, COL_ABI_METHOD_COUNT_ADDR, COL_BOUNDARY_UTXO)]
}

pub open spec fn skip_consumed_boundary() -> Seq<Equation> {
    let op = Opcode::SkipConsumed;
    scan_rows(op) + seq![
        same_row(op, COL_ABI_METHOD_COUNT_ADDR, COL_BOUNDARY_UTXO),
        fixed_row(op, COL_ABI_METHOD_COUNT_BEFORE, 0),
    ]
}

pub open spec fn finish_boundary() -> Seq<Equation> {
    seq![same_row(Opcode::FinishTransaction, COL_OUTPUT_CURSOR_BEFORE, COL_NEXT_UTXO_ID_BEFORE)]
}

pub open spec fn read_abi_boundary() -> Seq<Equation> {
    let op = Opcode::ReadAbi;
    seq![
        three_row(op, COL_ABI_READ_REMAINING_AFTER, 1, COL_ABI_READ_REMAINING_BEFORE, -1i64, 1),
        three_row(op, COL_ABI_READ_ORDINAL_AFTER, 1, COL_ABI_READ_ORDINAL_BEFORE, -1i64, -1i64),
        three_row(op, COL_BOUNDARY_UTXO, 1, COL_OUTPUT_CURSOR_BEFORE, -2i64, 1),
        same_row(op, COL_ABI_GENERATION_ADDR, COL_BOUNDARY_UTXO),
        same_row(op, COL_ENABLED_METHOD_LOG_UTXO, COL_BOUNDARY_UTXO),
        same_row(op, COL_ENABLED_METHOD_LOG_GENERATION, COL_ABI_GENERATION_BEFORE),
        same_row(op, COL_ENABLED_METHOD_LOG_ORDINAL, COL_ABI_READ_ORDINAL_BEFORE),
    ]
}

/// An exported UTXO has a nonempty ABI.
pub open spec fn nonempty_abi_row() -> Equation {
    product(
        "transaction boundaries",
        seq![(COL_ABI_METHOD_COUNT_BEFORE, 1i64)],
        seq![(COL_ABI_METHOD_COUNT_INVERSE, 1i64)],
        seq![(COL_SEL_GET_STORAGE, 1i64)],
    )
}

/// Rows of the transaction boundaries.
pub open spec fn boundary_rows() -> Seq<Equation> {
    boundary_flag_rows() + boundary_phase_rows() + boundary_progress_rows()
        + yield_begin_boundary() + append_rows(Opcode::RegisterMethod) + set_storage_boundary()
        + preload_method_boundary() + get_storage_boundary() + skip_consumed_boundary()
        + finish_boundary() + read_abi_boundary() + seq![nonempty_abi_row()]
}

fn push_flag(b: &mut Builder, group: OpcodeGroup, flag: usize)
    ensures
        final(b)@ == old(b)@.push(flag_row(group, flag)),
{
    b.push_linear_zero("transaction boundaries", flag_terms(group, flag));
}

fn push_group_constant(b: &mut Builder, group: OpcodeGroup, column: usize, value: i64)
    requires
        value > i64::MIN,
    ensures
        final(b)@ == old(b)@.push(group_constant_row(group, column, value)),
{
    b.push_row(
        "transaction boundaries",
        group.selector_terms(),
        terms2(column, 1, COL_ONE, -value),
        terms0(),
    );
}

fn push_group_equal(b: &mut Builder, group: OpcodeGroup, left: usize, right: usize)
    ensures
        final(b)@ == old(b)@.push(group_equal_row(group, left, right)),
{
    b.push_row(
        "transaction boundaries",
        group.selector_terms(),
        terms2(left, 1, right, -1),
        terms0(),
    );
}

fn push_three(b: &mut Builder, op: Opcode, c0: usize, k0: i64, c1: usize, k1: i64, k2: i64)
    ensures
        final(b)@ == old(b)@.push(three_row(op, c0, k0, c1, k1, k2)),
{
    b.push_gated_linear_zero(
        "transaction boundaries",
        op.selector(),
        terms3(c0, k0, c1, k1, COL_ONE, k2),
    );
}

fn push_same(b: &mut Builder, op: Opcode, left: usize, right: usize)
    ensures
        final(b)@ == old(b)@.push(same_row(op, left, right)),
{
    require_equal(b, "transaction boundaries", op, left, right);
}

fn push_fixed(b: &mut Builder, op: Opcode, column: usize, value: i64)
    requires
        value > i64::MIN,
    ensures
        final(b)@ == old(b)@.push(fixed_row(op, column, value)),
{
    require_constant(b, "transaction boundaries", op, column, value);
}

fn push_boundary_flags(b: &mut Builder)
    ensures
        final(b)@ == old(b)@ + boundary_flag_rows(),
{
    push_flag(b, OpcodeGroup::AppendsMethod, COL_METHOD_APPEND);
    push_flag(b, OpcodeGroup::HasEvent, COL_EVENT_ACTIVE);
    push_flag(b, OpcodeGroup::ScansOutput, COL_ABI_METHOD_COUNT_READ);
    push_flag(b, OpcodeGroup::WritesCount, COL_ABI_METHOD_COUNT_WRITE);
    b.push_linear_zero(
        "transaction boundaries",
        terms4(
            COL_OUTPUT_CURSOR_AFTER,
            1,
            COL_OUTPUT_CURSOR_BEFORE,
            -1,
            COL_SEL_GET_STORAGE,
            -1,
            COL_SEL_SKIP_CONSUMED,
            -1,
        ),
    );
    assert(b@ =~= old(b)@ + boundary_flag_rows());
}

fn push_boundary_phases(b: &mut Builder)
    ensures
        final(b)@ == old(b)@ + boundary_phase_rows(),
{
    let label = "transaction boundaries";
    // `Loading` and `Running` are the phases whose high bit is zero.
    let high_bit = bit_column(COL_TX_PHASE_BEFORE, 1);
    push_group_constant(b, OpcodeGroup::Execution, high_bit, 0);
    push_group_constant(
        b,
        OpcodeGroup::Execution,
        COL_TX_PHASE_AFTER,
        TxPhase::Running.value() as i64,
    );
    push_group_constant(b, OpcodeGroup::Execution, COL_LAST_INPUT_HAS_ABI_BEFORE, 1);
    b.push_row(
        label,
        terms2(COL_SEL_SET_STORAGE, 1, COL_SEL_PRELOAD_METHOD, 1),
        terms2(COL_TX_PHASE_BEFORE, 1, COL_ONE, -(TxPhase::Loading.value() as i64)),
        terms0(),
    );
    b.push_gated_linear_zero(
        label,
        COL_SEL_READ_ABI,
        terms2(COL_TX_PHASE_BEFORE, 1, COL_ONE, -(TxPhase::Running.value() as i64)),
    );
    // Loading and ABI enumeration preserve the transaction phase.
    b.push_row(
        label,
        terms3(COL_SEL_SET_STORAGE, 1, COL_SEL_PRELOAD_METHOD, 1, COL_SEL_READ_ABI, 1),
        terms2(COL_TX_PHASE_AFTER, 1, COL_TX_PHASE_BEFORE, -1),
        terms0(),
    );
    push_group_equal(
        b,
        OpcodeGroup::PreservesInputFlag,
        COL_LAST_INPUT_HAS_ABI_AFTER,
        COL_LAST_INPUT_HAS_ABI_BEFORE,
    );
    // The empty stack separates output processing from execution.
    push_group_constant(
        b,
        OpcodeGroup::Finalization,
        COL_TX_PHASE_BEFORE,
        TxPhase::Running.value() as i64,
    );
    push_group_constant(b, OpcodeGroup::Finalization, COL_CALL_SP_BEFORE, 0);
    b.push_row(
        label,
        OpcodeGroup::Finalization.selector_terms(),
        terms2(COL_TX_PHASE_AFTER, 1, COL_ONE, -(TxPhase::Running.value() as i64)),
        terms1(
            COL_SEL_FINISH_TRANSACTION,
            TxPhase::Finished.value() as i64 - TxPhase::Running.value() as i64,
        ),
    );
    assert(b@ =~= old(b)@ + boundary_phase_rows());
}

fn push_boundary_progress(b: &mut Builder)
    ensures
        final(b)@ == old(b)@ + boundary_progress_rows(),
{
    b.push_row(
        "transaction boundaries",
        OpcodeGroup::EnumerationDone.selector_terms(),
        terms1(COL_ABI_READ_REMAINING_BEFORE, 1),
        terms0(),
    );
    push_group_equal(
        b,
        OpcodeGroup::PreservesEnumeration,
        COL_ABI_READ_REMAINING_AFTER,
        COL_ABI_READ_REMAINING_BEFORE,
    );
    push_group_equal(
        b,
        OpcodeGroup::PreservesEnumeration,
        COL_ABI_READ_ORDINAL_AFTER,
        COL_ABI_READ_ORDINAL_BEFORE,
    );
    push_group_equal(b, OpcodeGroup::StorageEvent, COL_EVENT_OWNER, COL_BOUNDARY_UTXO);
    push_group_equal(b, OpcodeGroup::OwnEvent, COL_EVENT_OWNER, COL_CURR_BEFORE);
    assert(b@ =~= old(b)@ + boundary_progress_rows());
}

fn push_append(b: &mut Builder, op: Opcode)
    ensures
        final(b)@ == old(b)@ + append_rows(op),
{
    push_same(b, op, COL_ABI_METHOD_COUNT_ADDR, COL_ABI_GENERATION_ADDR);
    push_three(b, op, COL_ABI_METHOD_COUNT_AFTER, 1, COL_ABI_METHOD_COUNT_BEFORE, -1, -1);
    push_same(b, op, COL_ENABLED_METHOD_LOG_ORDINAL, COL_ABI_METHOD_COUNT_BEFORE);
    assert(b@ =~= old(b)@ + append_rows(op));
}

fn push_scan(b: &mut Builder, op: Opcode)
    ensures
        final(b)@ == old(b)@ + scan_rows(op),
{
    push_three(b, op, COL_BOUNDARY_UTXO, 1, COL_OUTPUT_CURSOR_BEFORE, -2, -1);
    b.push_gated_linear_zero(
        "transaction boundaries",
        op.selector(),
        terms4(
            COL_OUTPUT_REMAINING,
            1,
            COL_NEXT_UTXO_ID_BEFORE,
            -1,
            COL_OUTPUT_CURSOR_BEFORE,
            1,
            COL_ONE,
            1,
        ),
    );
    assert(b@ =~= old(b)@ + scan_rows(op));
}

fn push_loading(b: &mut Builder)
    ensures
        final(b)@ == old(b)@ + yield_begin_boundary() + append_rows(Opcode::RegisterMethod)
            + set_storage_boundary() + preload_method_boundary(),
{
    let mut op = Opcode::YieldBegin;
    push_same(b, op, COL_ABI_METHOD_COUNT_ADDR, COL_ABI_GENERATION_ADDR);
    push_fixed(b, op, COL_ABI_METHOD_COUNT_AFTER, 0);
    assert(b@ =~= old(b)@ + yield_begin_boundary());
    push_append(b, Opcode::RegisterMethod);
    let ghost before = b@;
    op = Opcode::SetStorage;
    push_fixed(b, op, COL_LAST_INPUT_HAS_ABI_BEFORE, 1);
    push_fixed(b, op, COL_LAST_INPUT_HAS_ABI_AFTER, 0);
    push_three(b, op, COL_BOUNDARY_UTXO, 1, COL_NEXT_UTXO_ID_BEFORE, -2, -1);
    push_same(b, op, COL_RESOURCE_RESOLVER_ADDR_CID, COL_CURR_BEFORE);
    push_same(b, op, COL_RESOURCE_RESOLVER_VALUE, COL_BOUNDARY_UTXO);
    assert(b@ =~= before + set_storage_boundary());
    let ghost loaded = b@;
    op = Opcode::PreloadMethod;
    push_fixed(b, op, COL_LAST_INPUT_HAS_ABI_AFTER, 1);
    push_three(b, op, COL_BOUNDARY_UTXO, 1, COL_NEXT_UTXO_ID_BEFORE, -2, 1);
    push_same(b, op, COL_ABI_GENERATION_ADDR, COL_BOUNDARY_UTXO);
    push_same(b, op, COL_ENABLED_METHOD_LOG_UTXO, COL_BOUNDARY_UTXO);
    push_same(b, op, COL_ENABLED_METHOD_LOG_GENERATION, COL_ABI_GENERATION_BEFORE);
    push_same(b, op, COL_ENABLED_METHOD_LOG_ADDR, COL_ENABLED_METHOD_LOG_LEN_BEFORE);
    push_append(b, op);
    assert(b@ =~= loaded + preload_method_boundary());
}

fn push_scanning(b: &mut Builder)
    ensures
        final(b)@ == old(b)@ + get_storage_boundary() + skip_consumed_boundary()
            + finish_boundary() + read_abi_boundary(),
{
    let mut op = Opcode::GetStorage;
    push_same(b, op, COL_ABI_READ_REMAINING_AFTER, COL_ABI_METHOD_COUNT_BEFORE);
    push_fixed(b, op, COL_ABI_READ_ORDINAL_AFTER, 0);
    push_scan(b, op);
    push_same(b, op, COL_ABI_METHOD_COUNT_ADDR, COL_BOUNDARY_UTXO);
    assert(b@ =~= old(b)@ + get_storage_boundary());
    let ghost exported = b@;
    op = Opcode::SkipConsumed;
    push_scan(b, op);
    push_same(b, op, COL_ABI_METHOD_COUNT_ADDR, COL_BOUNDARY_UTXO);
    push_fixed(b, op, COL_ABI_METHOD_COUNT_BEFORE, 0);
    assert(b@ =~= exported + skip_consumed_boundary());
    let ghost skipped = b@;
    push_same(b, Opcode::FinishTransaction, COL_OUTPUT_CURSOR_BEFORE, COL_NEXT_UTXO_ID_BEFORE);
    assert(b@ =~= skipped + finish_boundary());
    let ghost finished = b@;
    op = Opcode::ReadAbi;
    // The counters have eight bits: decrementing zero cannot wrap.
    push_three(b, op, COL_ABI_READ_REMAINING_AFTER, 1, COL_ABI_READ_REMAINING_BEFORE, -1, 1);
    push_three(b, op, COL_ABI_READ_ORDINAL_AFTER, 1, COL_ABI_READ_ORDINAL_BEFORE, -1, -1);
    push_three(b, op, COL_BOUNDARY_UTXO, 1, COL_OUTPUT_CURSOR_BEFORE, -2, 1);
    push_same(b, op, COL_ABI_GENERATION_ADDR, COL_BOUNDARY_UTXO);
    push_same(b, op, COL_ENABLED_METHOD_LOG_UTXO, COL_BOUNDARY_UTXO);
    push_same(b, op, COL_ENABLED_METHOD_LOG_GENERATION, COL_ABI_GENERATION_BEFORE);
    push_same(b, op, COL_ENABLED_METHOD_LOG_ORDINAL, COL_ABI_READ_ORDINAL_BEFORE);
    assert(b@ =~= finished + read_abi_boundary());
}

/// Add the rows of the transaction boundaries.
pub(crate) fn constraints(b: &mut Builder)
    ensures
        final(b)@ == old(b)@ + boundary_rows(),
{
    push_boundary_flags(b);
    push_boundary_phases(b);
    push_boundary_progress(b);
    push_loading(b);
    push_scanning(b);
    b.push_row(
        "transaction boundaries",
        terms1(COL_ABI_METHOD_COUNT_BEFORE, 1),
        terms1(COL_ABI_METHOD_COUNT_INVERSE, 1),
        terms1(COL_SEL_GET_STORAGE, 1),
    );
    assert(b@ =~= old(b)@ + boundary_rows());
}

} // verus!
