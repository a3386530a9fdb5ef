//! The relation that a row has to meet.

use vstd::prelude::*;

use crate::commitment::commitment_rows;
use crate::groups::OpcodeGroup;
use crate::ivc_state::{build_ivc_state_continuity_links, carried, CoroutineKind, CurrPhase};
use crate::layout::{
    bit_column, bit_of, COL_ABI_GENERATION_ADDR, COL_ABI_GENERATION_AFTER,
    COL_ABI_GENERATION_BEFORE, COL_CALL_SP_AFTER, COL_CALL_SP_BEFORE, COL_CALL_SP_BEFORE_INVERSE,
    COL_CALL_STACK_EXPECTED_ADDR_STRIDE_8, COL_CALL_STACK_MUL_STRIDE_8, COL_CALL_STACK_POP,
    COL_CALL_STACK_PUSH, COL_CALL_STACK_TOP, COL_CALL_TARGET, COL_CURR_AFTER, COL_CURR_BEFORE,
    COL_CURR_PHASE_AFTER, COL_CURR_PHASE_BEFORE, COL_ENABLED_METHOD_LOG_ADDR,
    COL_ENABLED_METHOD_LOG_GENERATION, COL_ENABLED_METHOD_LOG_LEN_AFTER,
    COL_ENABLED_METHOD_LOG_LEN_BEFORE, COL_ENABLED_METHOD_LOG_UTXO, COL_EVENT_OWNER,
    COL_EVENT_OWNER_STRIDE_8, COL_METHOD_INDEX, COL_METHOD_LOOKUP, COL_METHOD_TABLE_ADDR,
    COL_NEXT_UTXO_ID_AFTER, COL_NEXT_UTXO_ID_BEFORE, COL_ONE, COL_PENDING_CTOR_HANDLE_AFTER,
    COL_PENDING_CTOR_HANDLE_BEFORE, COL_PENDING_CTOR_HOLDER_AFTER, COL_PENDING_CTOR_HOLDER_BEFORE,
    COL_PENDING_CTOR_PRESENT_AFTER, COL_PENDING_CTOR_PRESENT_BEFORE,
    COL_RESOURCE_RESOLVER_ADDR_CID, COL_RESOURCE_RESOLVER_ADDR_HANDLE, COL_RESOURCE_RESOLVER_READ,
    COL_RESOURCE_RESOLVER_VALUE, COL_RESOURCE_RESOLVER_WRITE, COL_SEL_CALL_METHOD,
    COL_SEL_NEW_UTXO, COL_SEL_PRELOAD_METHOD, COL_SEL_READ_ABI, COL_SEL_REGISTER_METHOD,
    COL_SEL_RETURN, COL_SEL_SET_STORAGE, COLUMN_COUNT, width_of,
};
use crate::opcode::Opcode;
use crate::range_check::range_rows;
use crate::relation::{
    equations, gated, linear, product, terms0, terms1, terms2, terms3, terms4, terms5, Builder, Constraint,
    Equation, Term,
};
use crate::transaction::boundary_rows;

verus! {

/// Two columns are equal where an opcode is selected.
pub open spec fn equal_row(label: &'static str, op: Opcode, left: usize, right: usize) -> Equation {
    gated(label, op.selector(), seq![(left, 1i64), (right, -1i64)])
}

/// A column has a constant value where an opcode is selected.
pub open spec fn constant_row(label: &'static str, op: Opcode, column: usize, value: i64) -> Equation {
    gated(label, op.selector(), seq![(column, 1i64), (COL_ONE, (-value) as i64)])
}

/// The phase before the row where an opcode is selected.
pub open spec fn phase_before_row(label: &'static str, op: Opcode, phase: CurrPhase) -> Equation {
    constant_row(label, op, COL_CURR_PHASE_BEFORE, phase.value() as i64)
}

/// The phase after the row where an opcode is selected.
pub open spec fn phase_after_row(label: &'static str, op: Opcode, phase: CurrPhase) -> Equation {
    constant_row(label, op, COL_CURR_PHASE_AFTER, phase.value() as i64)
}

/// The kind of the coroutine in a column where an opcode is selected.
pub open spec fn kind_row(
    label: &'static str,
    op: Opcode,
    column: usize,
    kind: CoroutineKind,
) -> Equation {
    constant_row(label, op, bit_of(column as int, 0) as usize, kind.tag() as i64)
}

/// The key of the pending constructor stays as it is where an opcode is selected.
pub open spec fn preserve_pending_rows(label: &'static str, op: Opcode) -> Seq<Equation> {
    seq![
        equal_row(label, op, COL_PENDING_CTOR_PRESENT_AFTER, COL_PENDING_CTOR_PRESENT_BEFORE),
        equal_row(label, op, COL_PENDING_CTOR_HOLDER_AFTER, COL_PENDING_CTOR_HOLDER_BEFORE),
        equal_row(label, op, COL_PENDING_CTOR_HANDLE_AFTER, COL_PENDING_CTOR_HANDLE_BEFORE),
    ]
}

/// Exactly one opcode is selected.
pub open spec fn one_hot_row() -> Equation {
    product(
        "opcode selectors are one-hot",
        OpcodeGroup::All.selectors(),
        seq![(COL_ONE, 1i64)],
        seq![(COL_ONE, 1i64)],
    )
}

/// An executing coroutine has a frame.
pub open spec fn nonempty_stack_row() -> Equation {
    product(
        "execution requires nonempty call stack",
        seq![(COL_CALL_SP_BEFORE, 1i64)],
        seq![(COL_CALL_SP_BEFORE_INVERSE, 1i64)],
        OpcodeGroup::Execution.selectors(),
    )
}

/// Padding leaves every carried column as it is.
pub open spec fn padding_rows() -> Seq<Equation> {
    Seq::new(
        carried().len(),
        |i: int|
            equal_row(
                "padding preserves state",
                Opcode::Padding,
                carried()[i].previous_step_column,
                carried()[i].next_step_column,
            ),
    )
}

/// Without execution the coroutine's phase and the pending constructor stay.
pub open spec fn non_execution_rows() -> Seq<Equation> {
    let label = "non-execution preserves coroutine state";
    let group = OpcodeGroup::NonExecution.selectors();
    seq![
        product(
            label,
            group,
            seq![(COL_CURR_PHASE_AFTER, 1i64), (COL_CURR_PHASE_BEFORE, -1i64)],
            seq![],
        ),
        product(
            label,
            group,
            seq![
                (COL_PENDING_CTOR_PRESENT_AFTER, 1i64),
                (COL_PENDING_CTOR_PRESENT_BEFORE, -1i64),
            ],
            seq![],
        ),
        product(
            label,
            group,
            seq![(COL_PENDING_CTOR_HOLDER_AFTER, 1i64), (COL_PENDING_CTOR_HOLDER_BEFORE, -1i64)],
            seq![],
        ),
        product(
            label,
            group,
            seq![(COL_PENDING_CTOR_HANDLE_AFTER, 1i64), (COL_PENDING_CTOR_HANDLE_BEFORE, -1i64)],
            seq![],
        ),
    ]
}

/// Transfer of control, allocation, resource access and log growth.
pub open spec fn transition_rows() -> Seq<Equation> {
    seq![
        product(
            "current coroutine transition",
            OpcodeGroup::SwitchesCurr.selectors(),
            seq![(COL_CALL_TARGET, 1i64), (COL_CURR_BEFORE, -1i64)],
            seq![(COL_CURR_AFTER, 1i64), (COL_CURR_BEFORE, -1i64)],
        ),
        linear(
            "call stack push global condition: true if new_utxo or call_method",
            seq![
                (COL_SEL_NEW_UTXO, 1i64),
                (COL_SEL_CALL_METHOD, 1i64),
                (COL_CALL_STACK_PUSH, -1i64),
            ],
        ),
        linear(
            "next UTXO allocator transition",
            seq![
                (COL_NEXT_UTXO_ID_AFTER, 1i64),
                (COL_NEXT_UTXO_ID_BEFORE, -1i64),
                (COL_SEL_NEW_UTXO, -1i64),
                (COL_SEL_SET_STORAGE, -1i64),
            ],
        ),
        linear(
            "resource resolver access flags",
            seq![(COL_RESOURCE_RESOLVER_READ, 1i64), (COL_SEL_CALL_METHOD, -1i64)],
        ),
        product(
            "resource resolver access flags",
            seq![(COL_SEL_RETURN, 1i64)],
            seq![(COL_PENDING_CTOR_PRESENT_BEFORE, 1i64)],
            seq![(COL_RESOURCE_RESOLVER_WRITE, 1i64), (COL_SEL_SET_STORAGE, -1i64)],
        ),
        linear(
            "enabled method log transition",
            seq![
                (COL_METHOD_LOOKUP, 1i64),
                (COL_SEL_REGISTER_METHOD, -1i64),
                (COL_SEL_PRELOAD_METHOD, -1i64),
                (COL_SEL_CALL_METHOD, -1i64),
                (COL_SEL_READ_ABI, -1i64),
            ],
        ),
        linear(
            "enabled method log transition",
            seq![
                (COL_ENABLED_METHOD_LOG_LEN_AFTER, 1i64),
                (COL_ENABLED_METHOD_LOG_LEN_BEFORE, -1i64),
                (COL_SEL_REGISTER_METHOD, -1i64),
                (COL_SEL_PRELOAD_METHOD, -1i64),
            ],
        ),
    ]
}

/// Address of limb `i` of the looked-up method.
pub open spec fn method_table_row(i: int) -> Equation {
    product(
        "method table lookup addresses",
        seq![(COL_METHOD_LOOKUP, 1i64)],
        seq![(COL_METHOD_INDEX, 8i64), (COL_ONE, i as i64)],
        seq![((COL_METHOD_TABLE_ADDR + i) as usize, 1i64)],
    )
}

/// Address of limb `i` of the accessed frame: a push writes at the next free frame,
/// while a peek and a pop access the current top.
pub open spec fn frame_row(i: int) -> Equation {
    linear(
        "call stack mul stride (8)",
        seq![
            (COL_CALL_SP_BEFORE, 8i64),
            (COL_CALL_STACK_TOP, -8i64),
            (COL_CALL_STACK_POP, -8i64),
            (COL_ONE, i as i64),
            ((COL_CALL_STACK_MUL_STRIDE_8 + i) as usize, -1i64),
        ],
    )
}

/// Address of limb `i` of the accessed frame of a call or an entry.
pub open spec fn expected_frame_row(i: int) -> Equation {
    linear(
        "call stack mul stride (8)",
        seq![
            (COL_CALL_SP_BEFORE, 8i64),
            (COL_CALL_STACK_TOP, -8i64),
            (COL_ONE, i as i64),
            ((COL_CALL_STACK_EXPECTED_ADDR_STRIDE_8 + i) as usize, -1i64),
        ],
    )
}

/// Address of limb `i` of the chain of the event's owner.
pub open spec fn event_owner_row(i: int) -> Equation {
    linear(
        "event owner mul stride (8)",
        seq![
            (COL_EVENT_OWNER, 8i64),
            (COL_ONE, i as i64),
            ((COL_EVENT_OWNER_STRIDE_8 + i) as usize, -1i64),
        ],
    )
}

/// Addresses of limbs.
pub open spec fn address_rows() -> Seq<Equation> {
    Seq::new(8, |i: int| method_table_row(i)) + Seq::new(8, |i: int| frame_row(i)) + Seq::new(
        8,
        |i: int| expected_frame_row(i),
    ) + Seq::new(8, |i: int| event_owner_row(i))
}

/// Movement of the call-stack pointer.
pub open spec fn stack_rows() -> Seq<Equation> {
    seq![
        product(
            "sp' = sp+1 on push",
            OpcodeGroup::Pushes.selectors(),
            seq![(COL_CALL_SP_AFTER, 1i64), (COL_CALL_SP_BEFORE, -1i64), (COL_ONE, -1i64)],
            seq![],
        ),
        linear(
            "sp' = sp+1 on push",
            OpcodeGroup::Pushes.selectors().push((COL_CALL_STACK_PUSH, -1i64)),
        ),
        product(
            "sp' = sp-1 on pop",
            OpcodeGroup::Pops.selectors(),
            seq![(COL_CALL_SP_AFTER, 1i64), (COL_CALL_SP_BEFORE, -1i64), (COL_ONE, 1i64)],
            seq![],
        ),
        linear(
            "sp' = sp-1 on pop",
            OpcodeGroup::Pops.selectors().push((COL_CALL_STACK_POP, -1i64)),
        ),
        product(
            "sp' = sp when the call stack is preserved",
            OpcodeGroup::PreservesStack.selectors(),
            seq![(COL_CALL_SP_AFTER, 1i64), (COL_CALL_SP_BEFORE, -1i64)],
            seq![],
        ),
        linear(
            "reads the top of the stack without popping",
            OpcodeGroup::Peeks.selectors().push((COL_CALL_STACK_TOP, -1i64)),
        ),
    ]
}

/// Rows of `NewUtxo`: a coordinator starts the constructor of the next UTXO.
pub open spec fn new_utxo_rows() -> Seq<Equation> {
    let label = "new utxo constraints";
    let op = Opcode::NewUtxo;
    seq![
        kind_row(label, op, COL_CURR_BEFORE, CoroutineKind::Coord),
        phase_before_row(label, op, CurrPhase::Executing),
        phase_after_row(label, op, CurrPhase::CtorEnterPending),
        gated(
            label,
            op.selector(),
            seq![(COL_CALL_TARGET, 1i64), (COL_NEXT_UTXO_ID_BEFORE, -2i64), (COL_ONE, -1i64)],
        ),
        gated(label, op.selector(), seq![(COL_PENDING_CTOR_PRESENT_BEFORE, 1i64)]),
        constant_row(label, op, COL_PENDING_CTOR_PRESENT_AFTER, 1),
        equal_row(label, op, COL_PENDING_CTOR_HOLDER_AFTER, COL_CURR_BEFORE),
        equal_row(label, op, COL_PENDING_CTOR_HANDLE_AFTER, COL_RESOURCE_RESOLVER_ADDR_HANDLE),
        equal_row(label, op, COL_RESOURCE_RESOLVER_ADDR_CID, COL_CURR_BEFORE),
    ]
}

/// Rows of `EnterConstructor`: a pending constructor starts to yield.
pub open spec fn enter_constructor_rows() -> Seq<Equation> {
    let label = "enter constructor constraints";
    let op = Opcode::EnterConstructor;
    seq![
        kind_row(label, op, COL_CURR_BEFORE, CoroutineKind::Utxo),
        phase_before_row(label, op, CurrPhase::CtorEnterPending),
        phase_after_row(label, op, CurrPhase::Yield),
        constant_row(label, op, COL_PENDING_CTOR_PRESENT_BEFORE, 1),
    ] + preserve_pending_rows(label, op)
}

/// Rows of `YieldBegin`: an executing UTXO starts a new ABI generation.
pub open spec fn yield_begin_rows() -> Seq<Equation> {
    let label = "yield begin constraints";
    let op = Opcode::YieldBegin;
    seq![
        kind_row(label, op, COL_CURR_BEFORE, CoroutineKind::Utxo),
        phase_before_row(label, op, CurrPhase::Executing),
        phase_after_row(label, op, CurrPhase::Yield),
        equal_row(label, op, COL_ABI_GENERATION_ADDR, COL_CURR_BEFORE),
        gated(
            label,
            op.selector(),
            seq![
                (COL_ABI_GENERATION_AFTER, 1i64),
                (COL_ABI_GENERATION_BEFORE, -1i64),
                (COL_ONE, -1i64),
            ],
        ),
    ] + preserve_pending_rows(label, op)
}

/// Rows of `RegisterMethod`: a yielding UTXO appends to the log.
pub open spec fn register_method_rows() -> Seq<Equation> {
    let label = "register method constraints";
    let op = Opcode::RegisterMethod;
    seq![
        kind_row(label, op, COL_CURR_BEFORE, CoroutineKind::Utxo),
        phase_before_row(label, op, CurrPhase::Yield),
        phase_after_row(label, op, CurrPhase::Yield),
        equal_row(label, op, COL_ABI_GENERATION_ADDR, COL_CURR_BEFORE),
        equal_row(label, op, COL_ENABLED_METHOD_LOG_ADDR, COL_ENABLED_METHOD_LOG_LEN_BEFORE),
        equal_row(label, op, COL_ENABLED_METHOD_LOG_UTXO, COL_CURR_BEFORE),
        equal_row(label, op, COL_ENABLED_METHOD_LOG_GENERATION, COL_ABI_GENERATION_BEFORE),
    ] + preserve_pending_rows(label, op)
}

/// The resolver entry that a constructor's return writes.
pub open spec fn constructor_binding_row(resolver: usize, pending: usize) -> Equation {
    product(
        "return constraints",
        seq![(COL_RESOURCE_RESOLVER_WRITE, 1i64), (COL_SEL_SET_STORAGE, -1i64)],
        seq![(resolver, 1i64), (pending, -1i64)],
        seq![],
    )
}

/// Rows of `Return`: allowed in the phases with equal bits; control goes to a
/// coordinator; a pending constructor is bound and cleared.
pub open spec fn return_rows() -> Seq<Equation> {
    let label = "return constraints";
    let op = Opcode::Return;
    seq![
        equal_row(
            label,
            op,
            bit_of(COL_CURR_PHASE_BEFORE as int, 0) as usize,
            bit_of(COL_CURR_PHASE_BEFORE as int, 1) as usize,
        ),
        phase_after_row(label, op, CurrPhase::Executing),
        kind_row(label, op, COL_CURR_AFTER, CoroutineKind::Coord),
        gated(
            label,
            op.selector(),
            seq![
                (COL_PENDING_CTOR_PRESENT_AFTER, 1i64),
                (COL_PENDING_CTOR_HOLDER_AFTER, 1i64),
                (COL_PENDING_CTOR_HANDLE_AFTER, 1i64),
            ],
        ),
        constructor_binding_row(COL_RESOURCE_RESOLVER_ADDR_CID, COL_PENDING_CTOR_HOLDER_BEFORE),
        constructor_binding_row(COL_RESOURCE_RESOLVER_ADDR_HANDLE, COL_PENDING_CTOR_HANDLE_BEFORE),
        constructor_binding_row(COL_RESOURCE_RESOLVER_VALUE, COL_CURR_BEFORE),
    ]
}

/// Rows of `CallMethod`: a coordinator calls a method that the bound UTXO enables.
pub open spec fn call_method_rows() -> Seq<Equation> {
    let label = "call method constraints";
    let op = Opcode::CallMethod;
    seq![
        kind_row(label, op, COL_CURR_BEFORE, CoroutineKind::Coord),
        kind_row(label, op, COL_CALL_TARGET, CoroutineKind::Utxo),
        phase_before_row(label, op, CurrPhase::Executing),
        phase_after_row(label, op, CurrPhase::MethodEnterPending),
        equal_row(label, op, COL_RESOURCE_RESOLVER_ADDR_CID, COL_CURR_BEFORE),
        equal_row(label, op, COL_RESOURCE_RESOLVER_VALUE, COL_CALL_TARGET),
        equal_row(label, op, COL_ABI_GENERATION_ADDR, COL_CALL_TARGET),
        equal_row(label, op, COL_ENABLED_METHOD_LOG_UTXO, COL_CALL_TARGET),
        equal_row(label, op, COL_ENABLED_METHOD_LOG_GENERATION, COL_ABI_GENERATION_BEFORE),
    ] + preserve_pending_rows(label, op)
}

/// Rows of `EnterMethod`: a called UTXO starts to execute.
pub open spec fn enter_method_rows() -> Seq<Equation> {
    let label = "enter method constraints";
    let op = Opcode::EnterMethod;
    seq![
        kind_row(label, op, COL_CURR_BEFORE, CoroutineKind::Utxo),
        phase_before_row(label, op, CurrPhase::MethodEnterPending),
        phase_after_row(label, op, CurrPhase::Executing),
    ] + preserve_pending_rows(label, op)
}

pub(crate) fn require_equal(b: &mut Builder, label: &'static str, op: Opcode, left: usize, right: usize)
    ensures
        final(b)@ == old(b)@.push(equal_row(label, op, left, right)),
{
    b.push_gated_linear_zero(label, op.selector(), terms2(left, 1, right, -1));
}

pub(crate) fn require_constant(
    b: &mut Builder,
    label: &'static str,
    op: Opcode,
    column: usize,
    value: i64,
)
    requires
        value > i64::MIN,
    ensures
        final(b)@ == old(b)@.push(constant_row(label, op, column, value)),
{
    b.push_gated_linear_zero(label, op.selector(), terms2(column, 1, COL_ONE, -value));
}

fn require_phase_before(b: &mut Builder, label: &'static str, op: Opcode, phase: CurrPhase)
    ensures
        final(b)@ == old(b)@.push(phase_before_row(label, op, phase)),
{
    require_constant(b, label, op, COL_CURR_PHASE_BEFORE, phase.value() as i64);
}

fn require_phase_after(b: &mut Builder, label: &'static str, op: Opcode, phase: CurrPhase)
    ensures
        final(b)@ == old(b)@.push(phase_after_row(label, op, phase)),
{
    require_constant(b, label, op, COL_CURR_PHASE_AFTER, phase.value() as i64);
}

/// The two decomposition bits of a phase column, the low one first.
pub fn phase_bits(column: usize) -> (bits: [usize; 2])
    requires
        column == COL_CURR_PHASE_BEFORE || column == COL_CURR_PHASE_AFTER,
    ensures
        bits[0] == bit_of(column as int, 0),
        bits[1] == bit_of(column as int, 1),
{
    [bit_column(column, 0), bit_column(column, 1)]
}

/// The lowest decomposition bit of a column.
pub fn low_bit(column: usize) -> (bit: usize)
    requires
        column < COLUMN_COUNT,
        width_of(column as int) > 1,
    ensures
        bit == bit_of(column as int, 0),
{
    bit_column(column, 0)
}

fn require_coroutine_kind(
    b: &mut Builder,
    label: &'static str,
    op: Opcode,
    column: usize,
    expected: CoroutineKind,
)
    requires
        column < COLUMN_COUNT,
        width_of(column as int) > 1,
    ensures
        final(b)@ == old(b)@.push(kind_row(label, op, column, expected)),
{
    require_constant(b, label, op, low_bit(column), expected.tag() as i64);
}

fn preserve_pending_constructor_key(b: &mut Builder, label: &'static str, op: Opcode)
    ensures
        final(b)@ == old(b)@ + preserve_pending_rows(label, op),
{
    require_equal(b, label, op, COL_PENDING_CTOR_PRESENT_AFTER, COL_PENDING_CTOR_PRESENT_BEFORE);
    require_equal(b, label, op, COL_PENDING_CTOR_HOLDER_AFTER, COL_PENDING_CTOR_HOLDER_BEFORE);
    require_equal(b, label, op, COL_PENDING_CTOR_HANDLE_AFTER, COL_PENDING_CTOR_HANDLE_BEFORE);
    assert(b@ =~= old(b)@ + preserve_pending_rows(label, op));
}

fn visit_enter_method(b: &mut Builder)
    ensures
        final(b)@ == old(b)@ + enter_method_rows(),
{
    let label = "enter method constraints";
    let op = Opcode::EnterMethod;
    require_coroutine_kind(b, label, op, COL_CURR_BEFORE, CoroutineKind::Utxo);
    require_phase_before(b, label, op, CurrPhase::MethodEnterPending);
    require_phase_after(b, label, op, CurrPhase::Executing);
    preserve_pending_constructor_key(b, label, op);
    assert(b@ =~= old(b)@ + enter_method_rows());
}

fn visit_call_method(b: &mut Builder)
    ensures
        final(b)@ == old(b)@ + call_method_rows(),
{
    let label = "call method constraints";
    let op = Opcode::CallMethod;
    require_coroutine_kind(b, label, op, COL_CURR_BEFORE, CoroutineKind::Coord);
    require_coroutine_kind(b, label, op, COL_CALL_TARGET, CoroutineKind::Utxo);
    require_phase_before(b, label, op, CurrPhase::Executing);
    require_phase_after(b, label, op, CurrPhase::MethodEnterPending);
    require_equal(b, label, op, COL_RESOURCE_RESOLVER_ADDR_CID, COL_CURR_BEFORE);
    require_equal(b, label, op, COL_RESOURCE_RESOLVER_VALUE, COL_CALL_TARGET);
    require_equal(b, label, op, COL_ABI_GENERATION_ADDR, COL_CALL_TARGET);
    require_equal(b, label, op, COL_ENABLED_METHOD_LOG_UTXO, COL_CALL_TARGET);
    require_equal(b, label, op, COL_ENABLED_METHOD_LOG_GENERATION, COL_ABI_GENERATION_BEFORE);
    preserve_pending_constructor_key(b, label, op);
    assert(b@ =~= old(b)@ + call_method_rows());
}

fn bind_constructor(b: &mut Builder, resolver: usize, pending: usize)
    ensures
        final(b)@ == old(b)@.push(constructor_binding_row(resolver, pending)),
{
    b.push_row(
        "return constraints",
        terms2(COL_RESOURCE_RESOLVER_WRITE, 1, COL_SEL_SET_STORAGE, -1),
        terms2(resolver, 1, pending, -1),
        terms0(),
    );
}

fn visit_return(b: &mut Builder)
    ensures
        final(b)@ == old(b)@ + return_rows(),
{
    let label = "return constraints";
    let op = Opcode::Return;
    let bits = phase_bits(COL_CURR_PHASE_BEFORE);
    require_equal(b, label, op, bits[0], bits[1]);
    require_phase_after(b, label, op, CurrPhase::Executing);
    require_coroutine_kind(b, label, op, COL_CURR_AFTER, CoroutineKind::Coord);
    // A Boolean and two u32 values sum to less than the modulus, so a zero sum
    // forces each of them to be zero.
    b.push_gated_linear_zero(
        label,
        op.selector(),
        terms3(
            COL_PENDING_CTOR_PRESENT_AFTER,
            1,
            COL_PENDING_CTOR_HOLDER_AFTER,
            1,
            COL_PENDING_CTOR_HANDLE_AFTER,
            1,
        ),
    );
    bind_constructor(b, COL_RESOURCE_RESOLVER_ADDR_CID, COL_PENDING_CTOR_HOLDER_BEFORE);
    bind_constructor(b, COL_RESOURCE_RESOLVER_ADDR_HANDLE, COL_PENDING_CTOR_HANDLE_BEFORE);
    bind_constructor(b, COL_RESOURCE_RESOLVER_VALUE, COL_CURR_BEFORE);
    assert(b@ =~= old(b)@ + return_rows());
}

fn visit_register_method(b: &mut Builder)
    ensures
        final(b)@ == old(b)@ + register_method_rows(),
{
    let label = "register method constraints";
    let op = Opcode::RegisterMethod;
    require_coroutine_kind(b, label, op, COL_CURR_BEFORE, CoroutineKind::Utxo);
    require_phase_before(b, label, op, CurrPhase::Yield);
    require_phase_after(b, label, op, CurrPhase::Yield);
    require_equal(b, label, op, COL_ABI_GENERATION_ADDR, COL_CURR_BEFORE);
    require_equal(b, label, op, COL_ENABLED_METHOD_LOG_ADDR, COL_ENABLED_METHOD_LOG_LEN_BEFORE);
    require_equal(b, label, op, COL_ENABLED_METHOD_LOG_UTXO, COL_CURR_BEFORE);
    require_equal(b, label, op, COL_ENABLED_METHOD_LOG_GENERATION, COL_ABI_GENERATION_BEFORE);
    preserve_pending_constructor_key(b, label, op);
    assert(b@ =~= old(b)@ + register_method_rows());
}

fn visit_yield_begin(b: &mut Builder)
    ensures
        final(b)@ == old(b)@ + yield_begin_rows(),
{
    let label = "yield begin constraints";
    let op = Opcode::YieldBegin;
    require_coroutine_kind(b, label, op, COL_CURR_BEFORE, CoroutineKind::Utxo);
    require_phase_before(b, label, op, CurrPhase::Executing);
    require_phase_after(b, label, op, CurrPhase::Yield);
    require_equal(b, label, op, COL_ABI_GENERATION_ADDR, COL_CURR_BEFORE);
    b.push_gated_linear_zero(
        label,
        op.selector(),
        terms3(COL_ABI_GENERATION_AFTER, 1, COL_ABI_GENERATION_BEFORE, -1, COL_ONE, -1),
    );
    preserve_pending_constructor_key(b, label, op);
    assert(b@ =~= old(b)@ + yield_begin_rows());
}

fn visit_enter_constructor(b: &mut Builder)
    ensures
        final(b)@ == old(b)@ + enter_constructor_rows(),
{
    let label = "enter constructor constraints";
    let op = Opcode::EnterConstructor;
    require_coroutine_kind(b, label, op, COL_CURR_BEFORE, CoroutineKind::Utxo);
    require_phase_before(b, label, op, CurrPhase::CtorEnterPending);
    require_phase_after(b, label, op, CurrPhase::Yield);
    require_constant(b, label, op, COL_PENDING_CTOR_PRESENT_BEFORE, 1);
    preserve_pending_constructor_key(b, label, op);
    assert(b@ =~= old(b)@ + enter_constructor_rows());
}

fn visit_new_utxo(b: &mut Builder)
    ensures
        final(b)@ == old(b)@ + new_utxo_rows(),
{
    let label = "new utxo constraints";
    let op = Opcode::NewUtxo;
    require_coroutine_kind(b, label, op, COL_CURR_BEFORE, CoroutineKind::Coord);
    require_phase_before(b, label, op, CurrPhase::Executing);
    require_phase_after(b, label, op, CurrPhase::CtorEnterPending);
    b.push_gated_linear_zero(
        label,
        op.selector(),
        terms3(COL_CALL_TARGET, 1, COL_NEXT_UTXO_ID_BEFORE, -2, COL_ONE, -1),
    );
    b.push_gated_linear_zero(label, op.selector(), terms1(COL_PENDING_CTOR_PRESENT_BEFORE, 1));
    require_constant(b, label, op, COL_PENDING_CTOR_PRESENT_AFTER, 1);
    require_equal(b, label, op, COL_PENDING_CTOR_HOLDER_AFTER, COL_CURR_BEFORE);
    require_equal(b, label, op, COL_PENDING_CTOR_HANDLE_AFTER, COL_RESOURCE_RESOLVER_ADDR_HANDLE);
    require_equal(b, label, op, COL_RESOURCE_RESOLVER_ADDR_CID, COL_CURR_BEFORE);
    assert(b@ =~= old(b)@ + new_utxo_rows());
}

fn push_padding(b: &mut Builder)
    ensures
        final(b)@ == old(b)@ + padding_rows(),
{
    let links = build_ivc_state_continuity_links();
    let mut i: usize = 0;
    while i < links.len()
        invariant
            links@ == carried(),
            i <= links@.len(),
            b@ == old(b)@ + padding_rows().subrange(0, i as int),
        decreases links@.len() - i,
    {
        require_equal(
            b,
            "padding preserves state",
            Opcode::Padding,
            links[i].previous_step_column,
            links[i].next_step_column,
        );
        i = i + 1;
        assert(b@ =~= old(b)@ + padding_rows().subrange(0, i as int));
    }
    assert(padding_rows().subrange(0, padding_rows().len() as int) =~= padding_rows());
}

fn preserve_outside_execution(b: &mut Builder, after: usize, before: usize)
    ensures
        final(b)@ == old(b)@.push(
            product(
                "non-execution preserves coroutine state",
                OpcodeGroup::NonExecution.selectors(),
                seq![(after, 1i64), (before, -1i64)],
                seq![],
            ),
        ),
{
    b.push_row(
        "non-execution preserves coroutine state",
        OpcodeGroup::NonExecution.selector_terms(),
        terms2(after, 1, before, -1),
        terms0(),
    );
}

fn push_non_execution(b: &mut Builder)
    ensures
        final(b)@ == old(b)@ + non_execution_rows(),
{
    preserve_outside_execution(b, COL_CURR_PHASE_AFTER, COL_CURR_PHASE_BEFORE);
    preserve_outside_execution(b, COL_PENDING_CTOR_PRESENT_AFTER, COL_PENDING_CTOR_PRESENT_BEFORE);
    preserve_outside_execution(b, COL_PENDING_CTOR_HOLDER_AFTER, COL_PENDING_CTOR_HOLDER_BEFORE);
    preserve_outside_execution(b, COL_PENDING_CTOR_HANDLE_AFTER, COL_PENDING_CTOR_HANDLE_BEFORE);
    assert(b@ =~= old(b)@ + non_execution_rows());
}

fn push_transitions(b: &mut Builder)
    ensures
        final(b)@ == old(b)@ + transition_rows(),
{
    b.push_row(
        "current coroutine transition",
        OpcodeGroup::SwitchesCurr.selector_terms(),
        terms2(COL_CALL_TARGET, 1, COL_CURR_BEFORE, -1),
        terms2(COL_CURR_AFTER, 1, COL_CURR_BEFORE, -1),
    );
    b.push_linear_zero(
        "call stack push global condition: true if new_utxo or call_method",
        terms3(COL_SEL_NEW_UTXO, 1, COL_SEL_CALL_METHOD, 1, COL_CALL_STACK_PUSH, -1),
    );
    b.push_linear_zero(
        "next UTXO allocator transition",
        terms4(
            COL_NEXT_UTXO_ID_AFTER,
            1,
            COL_NEXT_UTXO_ID_BEFORE,
            -1,
            COL_SEL_NEW_UTXO,
            -1,
            COL_SEL_SET_STORAGE,
            -1,
        ),
    );
    b.push_linear_zero(
        "resource resolver access flags",
        terms2(COL_RESOURCE_RESOLVER_READ, 1, COL_SEL_CALL_METHOD, -1),
    );
    b.push_row(
        "resource resolver access flags",
        terms1(COL_SEL_RETURN, 1),
        terms1(COL_PENDING_CTOR_PRESENT_BEFORE, 1),
        terms2(COL_RESOURCE_RESOLVER_WRITE, 1, COL_SEL_SET_STORAGE, -1),
    );
    b.push_linear_zero(
        "enabled method log transition",
        terms5(
            COL_METHOD_LOOKUP,
            1,
            COL_SEL_REGISTER_METHOD,
            -1,
            COL_SEL_PRELOAD_METHOD,
            -1,
            COL_SEL_CALL_METHOD,
            -1,
            COL_SEL_READ_ABI,
            -1,
        ),
    );
    b.push_linear_zero(
        "enabled method log transition",
        terms4(
            COL_ENABLED_METHOD_LOG_LEN_AFTER,
            1,
            COL_ENABLED_METHOD_LOG_LEN_BEFORE,
            -1,
            COL_SEL_REGISTER_METHOD,
            -1,
            COL_SEL_PRELOAD_METHOD,
            -1,
        ),
    );
    assert(b@ =~= old(b)@ + transition_rows());
}

fn push_addresses(b: &mut Builder)
    ensures
        final(b)@ == old(b)@ + address_rows(),
{
    let ghost start = b@;
    let mut i: usize = 0;
    while i < 8
        invariant
            i <= 8,
            b@ == start + Seq::new(i as nat, |j: int| method_table_row(j)),
        decreases 8 - i,
    {
        b.push_row(
            "method table lookup addresses",
            terms1(COL_METHOD_LOOKUP, 1),
            terms2(COL_METHOD_INDEX, 8, COL_ONE, i as i64),
            terms1(COL_METHOD_TABLE_ADDR + i, 1),
        );
        i = i + 1;
        assert(b@ =~= start + Seq::new(i as nat, |j: int| method_table_row(j)));
    }
    let ghost second = b@;
    i = 0;
    while i < 8
        invariant
            i <= 8,
            b@ == second + Seq::new(i as nat, |j: int| frame_row(j)),
        decreases 8 - i,
    {
        b.push_linear_zero(
            "call stack mul stride (8)",
            terms5(
                COL_CALL_SP_BEFORE,
                8,
                COL_CALL_STACK_TOP,
                -8,
                COL_CALL_STACK_POP,
                -8,
                COL_ONE,
                i as i64,
                COL_CALL_STACK_MUL_STRIDE_8 + i,
                -1,
            ),
        );
        i = i + 1;
        assert(b@ =~= second + Seq::new(i as nat, |j: int| frame_row(j)));
    }
    let ghost third = b@;
    i = 0;
    while i < 8
        invariant
            i <= 8,
            b@ == third + Seq::new(i as nat, |j: int| expected_frame_row(j)),
        decreases 8 - i,
    {
        b.push_linear_zero(
            "call stack mul stride (8)",
            terms4(
                COL_CALL_SP_BEFORE,
                8,
                COL_CALL_STACK_TOP,
                -8,
                COL_ONE,
                i as i64,
                COL_CALL_STACK_EXPECTED_ADDR_STRIDE_8 + i,
                -1,
            ),
        );
        i = i + 1;
        assert(b@ =~= third + Seq::new(i as nat, |j: int| expected_frame_row(j)));
    }
    let ghost fourth = b@;
    i = 0;
    while i < 8
        invariant
            i <= 8,
            b@ == fourth + Seq::new(i as nat, |j: int| event_owner_row(j)),
        decreases 8 - i,
    {
        b.push_linear_zero(
            "event owner mul stride (8)",
            terms3(COL_EVENT_OWNER, 8, COL_ONE, i as i64, COL_EVENT_OWNER_STRIDE_8 + i, -1),
        );
        i = i + 1;
        assert(b@ =~= fourth + Seq::new(i as nat, |j: int| event_owner_row(j)));
    }
    assert(b@ =~= start + address_rows());
}

/// The selectors of a group and the flag that equals their sum.
pub(crate) fn flag_terms(group: OpcodeGroup, flag: usize) -> (terms: Vec<Term>)
    ensures
        terms@ == group.selectors().push((flag, -1i64)),
{
    let mut terms = group.selector_terms();
    terms.push((flag, -1));
    terms
}

fn push_stack(b: &mut Builder)
    ensures
        final(b)@ == old(b)@ + stack_rows(),
{
    b.push_row(
        "sp' = sp+1 on push",
        OpcodeGroup::Pushes.selector_terms(),
        terms3(COL_CALL_SP_AFTER, 1, COL_CALL_SP_BEFORE, -1, COL_ONE, -1),
        terms0(),
    );
    b.push_linear_zero("sp' = sp+1 on push", flag_terms(OpcodeGroup::Pushes, COL_CALL_STACK_PUSH));
    b.push_row(
        "sp' = sp-1 on pop",
        OpcodeGroup::Pops.selector_terms(),
        terms3(COL_CALL_SP_AFTER, 1, COL_CALL_SP_BEFORE, -1, COL_ONE, 1),
        terms0(),
    );
    b.push_linear_zero("sp' = sp-1 on pop", flag_terms(OpcodeGroup::Pops, COL_CALL_STACK_POP));
    b.push_row(
        "sp' = sp when the call stack is preserved",
        OpcodeGroup::PreservesStack.selector_terms(),
        terms2(COL_CALL_SP_AFTER, 1, COL_CALL_SP_BEFORE, -1),
        terms0(),
    );
    b.push_linear_zero(
        "reads the top of the stack without popping",
        flag_terms(OpcodeGroup::Peeks, COL_CALL_STACK_TOP),
    );
    assert(b@ =~= old(b)@ + stack_rows());
}

/// The relation of one row.
pub open spec fn relation_rows() -> Seq<Equation> {
    seq![one_hot_row(), nonempty_stack_row()] + padding_rows() + non_execution_rows()
        + boundary_rows() + transition_rows() + address_rows() + stack_rows() + new_utxo_rows()
        + enter_constructor_rows() + yield_begin_rows() + register_method_rows() + return_rows()
        + call_method_rows() + enter_method_rows() + commitment_rows() + range_rows(
        COLUMN_COUNT as int,
    )
}

/// Build the relation of one row.
pub fn build_relation() -> (relation: Vec<Constraint>)
    ensures
        equations(relation@) == relation_rows(),
{
    let mut builder = Builder::new();
    let b = &mut builder;
    b.push_row(
        "opcode selectors are one-hot",
        OpcodeGroup::All.selector_terms(),
        terms1(COL_ONE, 1),
        terms1(COL_ONE, 1),
    );
    b.push_row(
        "execution requires nonempty call stack",
        terms1(COL_CALL_SP_BEFORE, 1),
        terms1(COL_CALL_SP_BEFORE_INVERSE, 1),
        OpcodeGroup::Execution.selector_terms(),
    );
    assert(b@ =~= seq![one_hot_row(), nonempty_stack_row()]);
    push_padding(b);
    push_non_execution(b);
    crate::transaction::constraints(b);
    push_transitions(b);
    push_addresses(b);
    push_stack(b);
    visit_new_utxo(b);
    visit_enter_constructor(b);
    visit_yield_begin(b);
    visit_register_method(b);
    visit_return(b);
    visit_call_method(b);
    visit_enter_method(b);
    crate::commitment::constraints(b);
    crate::range_check::constraints(b);
    builder.rows
}

} // verus!
