//! Columns of one row of the step relation.
//!
//! A row holds [`COLUMN_COUNT`] semantic columns, then the decomposition bits of
//! those that are bounded by more than one bit. A family of several columns is
//! named by its first column; the others follow it.

use vstd::prelude::*;

verus! {

/// Number of leading columns of an assignment that are public.
pub const PUBLIC_INPUTS: usize = 1;

/// Largest width of a bounded column.
pub const MAX_WIDTH: usize = 32;

// Main section.

/// The public constant one (field).
pub const COL_ONE: usize = 0;

/// Selector for the NewUtxo action (Boolean).
pub const COL_SEL_NEW_UTXO: usize = 1;

/// Selector for the EnterConstructor action (Boolean).
pub const COL_SEL_ENTER_CONSTRUCTOR: usize = 2;

/// Selector for the YieldBegin action (Boolean).
pub const COL_SEL_YIELD_BEGIN: usize = 3;

/// Selector for the RegisterMethod action (Boolean).
pub const COL_SEL_REGISTER_METHOD: usize = 4;

/// Selector for the Return action (Boolean).
pub const COL_SEL_RETURN: usize = 5;

/// Selector for the CallMethod action (Boolean).
pub const COL_SEL_CALL_METHOD: usize = 6;

/// Selector for the EnterMethod action (Boolean).
pub const COL_SEL_ENTER_METHOD: usize = 7;

/// State-preserving circuit-only padding slot (Boolean).
pub const COL_SEL_PADDING: usize = 8;

/// Load an input UTXO (Boolean).
pub const COL_SEL_SET_STORAGE: usize = 9;

/// Load a ledger ABI entry (Boolean).
pub const COL_SEL_PRELOAD_METHOD: usize = 10;

/// Export the next surviving UTXO (Boolean).
pub const COL_SEL_GET_STORAGE: usize = 11;

/// Skip the next consumed UTXO (Boolean).
pub const COL_SEL_SKIP_CONSUMED: usize = 12;

/// Finish the output scan (Boolean).
pub const COL_SEL_FINISH_TRANSACTION: usize = 13;

/// RegisterMethod or PreloadMethod (Boolean).
pub const COL_METHOD_APPEND: usize = 14;

/// This row emits a program event (Boolean).
pub const COL_EVENT_ACTIVE: usize = 15;

/// Packed instance owning this program event (u32).
pub const COL_EVENT_OWNER: usize = 16;

/// Packed UTXO ID for loading or the output scan (u32).
pub const COL_BOUNDARY_UTXO: usize = 17;

/// Next_utxo_id - output_cursor - 1 on output scans (u32).
pub const COL_OUTPUT_REMAINING: usize = 18;

/// Packed coroutine id that has the turn (u32).
pub const COL_CURR_BEFORE: usize = 19;

/// Packed coroutine id that has the turn in the next step (u32).
pub const COL_CURR_AFTER: usize = 20;

/// True when a call happens and we need to keep track of the caller's context (Boolean).
pub const COL_CALL_STACK_PUSH: usize = 21;

/// True when returning from a call (Boolean).
pub const COL_CALL_STACK_POP: usize = 22;

/// True when peeking at the top of the call stack without popping (Boolean).
pub const COL_CALL_STACK_TOP: usize = 23;

/// Inverse proving that an execution row starts with a nonempty call stack (field).
pub const COL_CALL_SP_BEFORE_INVERSE: usize = 24;

/// SP * 8 + i (push/pop/peek) (8 columns, u32).
pub const COL_CALL_STACK_MUL_STRIDE_8: usize = 25;

/// SP * 8 + i (8 columns, u32).
pub const COL_CALL_STACK_EXPECTED_ADDR_STRIDE_8: usize = 33;

/// Opaque argument root, little-endian 32-bit limbs; written on call, read on entry (8 columns, u32).
pub const COL_CALL_STACK_EXPECTED_ARG_VALUE: usize = 41;

/// Opaque result root, little-endian 32-bit limbs; written on call, read on return (8 columns, u32).
pub const COL_CALL_STACK_EXPECTED_RESULT_VALUE: usize = 49;

/// Method hash limb bus: call-stack expected-method value and method-table ROM lookup value (8 columns, u32).
pub const COL_METHOD_HASH_VALUE: usize = 57;

/// Trace-local compact index for the method hash (29 bits).
pub const COL_METHOD_INDEX: usize = 65;

/// RegisterMethod, PreloadMethod, CallMethod or ReadAbi resolves a method hash (Boolean).
pub const COL_METHOD_LOOKUP: usize = 66;

/// Method_index * 8 + hash limb offset (8 columns, u32).
pub const COL_METHOD_TABLE_ADDR: usize = 67;

/// Packed coroutine id that gets control in the next step (u32).
pub const COL_CALL_TARGET: usize = 75;

/// Packed UTXO key for current-generation registration count (u32).
pub const COL_ABI_METHOD_COUNT_ADDR: usize = 76;

/// Host-synthesized output ABI enumeration (Boolean).
pub const COL_SEL_READ_ABI: usize = 77;

/// Unread registrations of the last exported UTXO (8 bits).
pub const COL_ABI_READ_REMAINING_BEFORE: usize = 78;

/// Remaining registrations after GetStorage loads the count or ReadAbi decrements it (8 bits).
pub const COL_ABI_READ_REMAINING_AFTER: usize = 79;

/// Next output ABI ordinal (8 bits).
pub const COL_ABI_READ_ORDINAL_BEFORE: usize = 80;

/// Output ABI ordinal after this row (8 bits).
pub const COL_ABI_READ_ORDINAL_AFTER: usize = 81;

/// Registration count before update, or final count on output reads; includes duplicates (8 bits).
pub const COL_ABI_METHOD_COUNT_BEFORE: usize = 82;

/// Registration count after append (+1) or YieldBegin (0) (8 bits).
pub const COL_ABI_METHOD_COUNT_AFTER: usize = 83;

/// Inverse proving a surviving output has a nonzero registration count (field).
pub const COL_ABI_METHOD_COUNT_INVERSE: usize = 84;

/// Zero-based registration ordinal: written on append, read during output ABI enumeration (8 bits).
pub const COL_ENABLED_METHOD_LOG_ORDINAL: usize = 85;

/// RegisterMethod/PreloadMethod increments count; YieldBegin clears it (Boolean).
pub const COL_ABI_METHOD_COUNT_WRITE: usize = 86;

/// GetStorage/SkipConsumed reads final liveness (Boolean).
pub const COL_ABI_METHOD_COUNT_READ: usize = 87;

/// Append-log entry written by RegisterMethod/PreloadMethod or selected by CallMethod (u32).
pub const COL_ENABLED_METHOD_LOG_ADDR: usize = 88;

/// Packed UTXO id stored in the enabled-method log entry (u32).
pub const COL_ENABLED_METHOD_LOG_UTXO: usize = 89;

/// ABI generation stored in the enabled-method log entry (u32).
pub const COL_ENABLED_METHOD_LOG_GENERATION: usize = 90;

/// Packed UTXO id whose current ABI generation is accessed (u32).
pub const COL_ABI_GENERATION_ADDR: usize = 91;

/// Current ABI generation read from memory (u32).
pub const COL_ABI_GENERATION_BEFORE: usize = 92;

/// Next ABI generation written by YieldBegin (u32).
pub const COL_ABI_GENERATION_AFTER: usize = 93;

/// Packed holder coroutine id in the resource key (u32).
pub const COL_RESOURCE_RESOLVER_ADDR_CID: usize = 94;

/// Resource handle in the resource key (u32).
pub const COL_RESOURCE_RESOLVER_ADDR_HANDLE: usize = 95;

/// The packed coroutine id assigned to the resource at (cid, handle) (u32).
pub const COL_RESOURCE_RESOLVER_VALUE: usize = 96;

/// SetStorage or constructor Return writes a resource binding (Boolean).
pub const COL_RESOURCE_RESOLVER_WRITE: usize = 97;

/// 1 if reading from the resource resolver map (on call_method) (Boolean).
pub const COL_RESOURCE_RESOLVER_READ: usize = 98;

/// Event_owner * 8 + i for trace digest RAM (8 columns, u32).
pub const COL_EVENT_OWNER_STRIDE_8: usize = 99;

// State carried from one row to the next.

/// Loading=0, Executing (including output processing)=1, Finished=2 (2 bits).
pub const COL_TX_PHASE_BEFORE: usize = 107;

/// Transaction phase after this row (2 bits).
pub const COL_TX_PHASE_AFTER: usize = 108;

/// Last loaded UTXO has a nonempty ABI (or none has been loaded yet) (Boolean).
pub const COL_LAST_INPUT_HAS_ABI_BEFORE: usize = 109;

/// Last loaded UTXO has a nonempty ABI after this row (or none has been loaded yet) (Boolean).
pub const COL_LAST_INPUT_HAS_ABI_AFTER: usize = 110;

/// Next UTXO ID to finalize (u32).
pub const COL_OUTPUT_CURSOR_BEFORE: usize = 111;

/// Next UTXO ID after this row (u32).
pub const COL_OUTPUT_CURSOR_AFTER: usize = 112;

/// Internal phase of curr for enforcing cross-step consistency (2 bits).
pub const COL_CURR_PHASE_BEFORE: usize = 113;

/// Internal phase of curr in the next step (2 bits).
pub const COL_CURR_PHASE_AFTER: usize = 114;

/// Call stack pointer before (u32).
pub const COL_CALL_SP_BEFORE: usize = 115;

/// Call stack pointer after (u32).
pub const COL_CALL_SP_AFTER: usize = 116;

/// Utxo id allocator (u32).
pub const COL_NEXT_UTXO_ID_BEFORE: usize = 117;

/// Utxo id allocator (u32).
pub const COL_NEXT_UTXO_ID_AFTER: usize = 118;

/// Next free enabled-method append-log entry (u32).
pub const COL_ENABLED_METHOD_LOG_LEN_BEFORE: usize = 119;

/// Next free enabled-method append-log entry after this step (u32).
pub const COL_ENABLED_METHOD_LOG_LEN_AFTER: usize = 120;

/// Whether a constructor resource key is pending (Boolean).
pub const COL_PENDING_CTOR_PRESENT_BEFORE: usize = 121;

/// Whether a constructor resource key remains pending (Boolean).
pub const COL_PENDING_CTOR_PRESENT_AFTER: usize = 122;

/// Packed holder coroutine id in the pending constructor key (u32).
pub const COL_PENDING_CTOR_HOLDER_BEFORE: usize = 123;

/// Packed holder coroutine id in the pending constructor key (u32).
pub const COL_PENDING_CTOR_HOLDER_AFTER: usize = 124;

/// Resource handle in the pending constructor key (u32).
pub const COL_PENDING_CTOR_HANDLE_BEFORE: usize = 125;

/// Resource handle in the pending constructor key (u32).
pub const COL_PENDING_CTOR_HANDLE_AFTER: usize = 126;

// Event commitment of the row.

/// The carried 4-limb poseidon2 commitment (4 columns, field).
pub const COL_IN: usize = 127;

/// The carried 4-limb poseidon2 commitment (4 columns, field).
pub const COL_OUT: usize = 131;

/// Canonical input digest limbs for trace RAM (8 columns, u32).
pub const COL_IN_WORDS: usize = 135;

/// Canonical output digest limbs for trace RAM (8 columns, u32).
pub const COL_OUT_WORDS: usize = 143;

/// Opaque argument root reconstructed from call-stack bus (4 columns, field).
pub const COL_ARGUMENT_ROOT: usize = 151;

/// Opaque result root reconstructed from call-stack bus (4 columns, field).
pub const COL_RESULT_ROOT: usize = 155;

/// Whether the high u32 limb equals 0xffffffff (16 columns, Boolean).
pub const COL_CANONICAL_HIGH_MAX: usize = 159;

/// Inverse of high limb minus 0xffffffff (16 columns, field).
pub const COL_CANONICAL_HIGH_INV: usize = 175;

/// Up to three canonical outer event blocks (24 columns, field).
pub const COL_EVENT_BLOCKS: usize = 191;

/// Unconditionally chained compression outputs; opcode block count selects the final root
/// (12 columns, field).
pub const COL_EVENT_HASHES: usize = 215;

/// Number of semantic columns of a row.
pub const COLUMN_COUNT: usize = 227;

/// Number of columns of a row, decomposition bits included.
pub const ROW_WIDTH: usize = 3520;

/// Width in bits of a bounded column: one for a Boolean column, zero for a
/// column that may hold any field element.
pub open spec fn width_of(column: int) -> nat {
    if column < 1 {
        0
    } else if column < 16 {
        1
    } else if column < 21 {
        32
    } else if column < 24 {
        1
    } else if column < 25 {
        0
    } else if column < 65 {
        32
    } else if column < 66 {
        29
    } else if column < 67 {
        1
    } else if column < 77 {
        32
    } else if column < 78 {
        1
    } else if column < 84 {
        8
    } else if column < 85 {
        0
    } else if column < 86 {
        8
    } else if column < 88 {
        1
    } else if column < 97 {
        32
    } else if column < 99 {
        1
    } else if column < 107 {
        32
    } else if column < 109 {
        2
    } else if column < 111 {
        1
    } else if column < 113 {
        32
    } else if column < 115 {
        2
    } else if column < 121 {
        32
    } else if column < 123 {
        1
    } else if column < 127 {
        32
    } else if column < 135 {
        0
    } else if column < 151 {
        32
    } else if column < 159 {
        0
    } else if column < 175 {
        1
    } else if column < 227 {
        0
    } else {
        0
    }
}

/// [`width_of`] a column.
pub fn column_width(column: usize) -> (width: usize)
    ensures
        width == width_of(column as int),
        width <= MAX_WIDTH,
{
    if column < 1 {
        0
    } else if column < 16 {
        1
    } else if column < 21 {
        32
    } else if column < 24 {
        1
    } else if column < 25 {
        0
    } else if column < 65 {
        32
    } else if column < 66 {
        29
    } else if column < 67 {
        1
    } else if column < 77 {
        32
    } else if column < 78 {
        1
    } else if column < 84 {
        8
    } else if column < 85 {
        0
    } else if column < 86 {
        8
    } else if column < 88 {
        1
    } else if column < 97 {
        32
    } else if column < 99 {
        1
    } else if column < 107 {
        32
    } else if column < 109 {
        2
    } else if column < 111 {
        1
    } else if column < 113 {
        32
    } else if column < 115 {
        2
    } else if column < 121 {
        32
    } else if column < 123 {
        1
    } else if column < 127 {
        32
    } else if column < 135 {
        0
    } else if column < 151 {
        32
    } else if column < 159 {
        0
    } else if column < 175 {
        1
    } else if column < 227 {
        0
    } else {
        0
    }
}

/// Name of the family that a column belongs to.
pub open spec fn name_of(column: int) -> &'static str {
    if column < 1 {
        "COL_ONE"
    } else if column < 2 {
        "COL_SEL_NEW_UTXO"
    } else if column < 3 {
        "COL_SEL_ENTER_CONSTRUCTOR"
    } else if column < 4 {
        "COL_SEL_YIELD_BEGIN"
    } else if column < 5 {
        "COL_SEL_REGISTER_METHOD"
    } else if column < 6 {
        "COL_SEL_RETURN"
    } else if column < 7 {
        "COL_SEL_CALL_METHOD"
    } else if column < 8 {
        "COL_SEL_ENTER_METHOD"
    } else if column < 9 {
        "COL_SEL_PADDING"
    } else if column < 10 {
        "COL_SEL_SET_STORAGE"
    } else if column < 11 {
        "COL_SEL_PRELOAD_METHOD"
    } else if column < 12 {
        "COL_SEL_GET_STORAGE"
    } else if column < 13 {
        "COL_SEL_SKIP_CONSUMED"
    } else if column < 14 {
        "COL_SEL_FINISH_TRANSACTION"
    } else if column < 15 {
        "COL_METHOD_APPEND"
    } else if column < 16 {
        "COL_EVENT_ACTIVE"
    } else if column < 17 {
        "COL_EVENT_OWNER"
    } else if column < 18 {
        "COL_BOUNDARY_UTXO"
    } else if column < 19 {
        "COL_OUTPUT_REMAINING"
    } else if column < 20 {
        "COL_CURR_BEFORE"
    } else if column < 21 {
        "COL_CURR_AFTER"
    } else if column < 22 {
        "COL_CALL_STACK_PUSH"
    } else if column < 23 {
        "COL_CALL_STACK_POP"
    } else if column < 24 {
        "COL_CALL_STACK_TOP"
    } else if column < 25 {
        "COL_CALL_SP_BEFORE_INVERSE"
    } else if column < 33 {
        "COL_CALL_STACK_MUL_STRIDE_8"
    } else if column < 41 {
        "COL_CALL_STACK_EXPECTED_ADDR_STRIDE_8"
    } else if column < 49 {
        "COL_CALL_STACK_EXPECTED_ARG_VALUE"
    } else if column < 57 {
        "COL_CALL_STACK_EXPECTED_RESULT_VALUE"
    } else if column < 65 {
        "COL_METHOD_HASH_VALUE"
    } else if column < 66 {
        "COL_METHOD_INDEX"
    } else if column < 67 {
        "COL_METHOD_LOOKUP"
    } else if column < 75 {
        "COL_METHOD_TABLE_ADDR"
    } else if column < 76 {
        "COL_CALL_TARGET"
    } else if column < 77 {
        "COL_ABI_METHOD_COUNT_ADDR"
    } else if column < 78 {
        "COL_SEL_READ_ABI"
    } else if column < 79 {
        "COL_ABI_READ_REMAINING_BEFORE"
    } else if column < 80 {
        "COL_ABI_READ_REMAINING_AFTER"
    } else if column < 81 {
        "COL_ABI_READ_ORDINAL_BEFORE"
    } else if column < 82 {
        "COL_ABI_READ_ORDINAL_AFTER"
    } else if column < 83 {
        "COL_ABI_METHOD_COUNT_BEFORE"
    } else if column < 84 {
        "COL_ABI_METHOD_COUNT_AFTER"
    } else if column < 85 {
        "COL_ABI_METHOD_COUNT_INVERSE"
    } else if column < 86 {
        "COL_ENABLED_METHOD_LOG_ORDINAL"
    } else if column < 87 {
        "COL_ABI_METHOD_COUNT_WRITE"
    } else if column < 88 {
        "COL_ABI_METHOD_COUNT_READ"
    } else if column < 89 {
        "COL_ENABLED_METHOD_LOG_ADDR"
    } else if column < 90 {
        "COL_ENABLED_METHOD_LOG_UTXO"
    } else if column < 91 {
        "COL_ENABLED_METHOD_LOG_GENERATION"
    } else if column < 92 {
        "COL_ABI_GENERATION_ADDR"
    } else if column < 93 {
        "COL_ABI_GENERATION_BEFORE"
    } else if column < 94 {
        "COL_ABI_GENERATION_AFTER"
    } else if column < 95 {
        "COL_RESOURCE_RESOLVER_ADDR_CID"
    } else if column < 96 {
        "COL_RESOURCE_RESOLVER_ADDR_HANDLE"
    } else if column < 97 {
        "COL_RESOURCE_RESOLVER_VALUE"
    } else if column < 98 {
        "COL_RESOURCE_RESOLVER_WRITE"
    } else if column < 99 {
        "COL_RESOURCE_RESOLVER_READ"
    } else if column < 107 {
        "COL_EVENT_OWNER_STRIDE_8"
    } else if column < 108 {
        "COL_TX_PHASE_BEFORE"
    } else if column < 109 {
        "COL_TX_PHASE_AFTER"
    } else if column < 110 {
        "COL_LAST_INPUT_HAS_ABI_BEFORE"
    } else if column < 111 {
        "COL_LAST_INPUT_HAS_ABI_AFTER"
    } else if column < 112 {
        "COL_OUTPUT_CURSOR_BEFORE"
    } else if column < 113 {
        "COL_OUTPUT_CURSOR_AFTER"
    } else if column < 114 {
        "COL_CURR_PHASE_BEFORE"
    } else if column < 115 {
        "COL_CURR_PHASE_AFTER"
    } else if column < 116 {
        "COL_CALL_SP_BEFORE"
    } else if column < 117 {
        "COL_CALL_SP_AFTER"
    } else if column < 118 {
        "COL_NEXT_UTXO_ID_BEFORE"
    } else if column < 119 {
        "COL_NEXT_UTXO_ID_AFTER"
    } else if column < 120 {
        "COL_ENABLED_METHOD_LOG_LEN_BEFORE"
    } else if column < 121 {
        "COL_ENABLED_METHOD_LOG_LEN_AFTER"
    } else if column < 122 {
        "COL_PENDING_CTOR_PRESENT_BEFORE"
    } else if column < 123 {
        "COL_PENDING_CTOR_PRESENT_AFTER"
    } else if column < 124 {
        "COL_PENDING_CTOR_HOLDER_BEFORE"
    } else if column < 125 {
        "COL_PENDING_CTOR_HOLDER_AFTER"
    } else if column < 126 {
        "COL_PENDING_CTOR_HANDLE_BEFORE"
    } else if column < 127 {
        "COL_PENDING_CTOR_HANDLE_AFTER"
    } else if column < 131 {
        "COL_IN"
    } else if column < 135 {
        "COL_OUT"
    } else if column < 143 {
        "COL_IN_WORDS"
    } else if column < 151 {
        "COL_OUT_WORDS"
    } else if column < 155 {
        "COL_ARGUMENT_ROOT"
    } else if column < 159 {
        "COL_RESULT_ROOT"
    } else if column < 175 {
        "COL_CANONICAL_HIGH_MAX"
    } else if column < 191 {
        "COL_CANONICAL_HIGH_INV"
    } else if column < 215 {
        "COL_EVENT_BLOCKS"
    } else if column < 227 {
        "COL_EVENT_HASHES"
    } else {
        "RANGE_CHECK_BITS"
    }
}

/// [`name_of`] a column.
pub fn column_name(column: usize) -> (name: &'static str)
    ensures
        name == name_of(column as int),
{
    if column < 1 {
        "COL_ONE"
    } else if column < 2 {
        "COL_SEL_NEW_UTXO"
    } else if column < 3 {
        "COL_SEL_ENTER_CONSTRUCTOR"
    } else if column < 4 {
        "COL_SEL_YIELD_BEGIN"
    } else if column < 5 {
        "COL_SEL_REGISTER_METHOD"
    } else if column < 6 {
        "COL_SEL_RETURN"
    } else if column < 7 {
        "COL_SEL_CALL_METHOD"
    } else if column < 8 {
        "COL_SEL_ENTER_METHOD"
    } else if column < 9 {
        "COL_SEL_PADDING"
    } else if column < 10 {
        "COL_SEL_SET_STORAGE"
    } else if column < 11 {
        "COL_SEL_PRELOAD_METHOD"
    } else if column < 12 {
        "COL_SEL_GET_STORAGE"
    } else if column < 13 {
        "COL_SEL_SKIP_CONSUMED"
    } else if column < 14 {
        "COL_SEL_FINISH_TRANSACTION"
    } else if column < 15 {
        "COL_METHOD_APPEND"
    } else if column < 16 {
        "COL_EVENT_ACTIVE"
    } else if column < 17 {
        "COL_EVENT_OWNER"
    } else if column < 18 {
        "COL_BOUNDARY_UTXO"
    } else if column < 19 {
        "COL_OUTPUT_REMAINING"
    } else if column < 20 {
        "COL_CURR_BEFORE"
    } else if column < 21 {
        "COL_CURR_AFTER"
    } else if column < 22 {
        "COL_CALL_STACK_PUSH"
    } else if column < 23 {
        "COL_CALL_STACK_POP"
    } else if column < 24 {
        "COL_CALL_STACK_TOP"
    } else if column < 25 {
        "COL_CALL_SP_BEFORE_INVERSE"
    } else if column < 33 {
        "COL_CALL_STACK_MUL_STRIDE_8"
    } else if column < 41 {
        "COL_CALL_STACK_EXPECTED_ADDR_STRIDE_8"
    } else if column < 49 {
        "COL_CALL_STACK_EXPECTED_ARG_VALUE"
    } else if column < 57 {
        "COL_CALL_STACK_EXPECTED_RESULT_VALUE"
    } else if column < 65 {
        "COL_METHOD_HASH_VALUE"
    } else if column < 66 {
        "COL_METHOD_INDEX"
    } else if column < 67 {
        "COL_METHOD_LOOKUP"
    } else if column < 75 {
        "COL_METHOD_TABLE_ADDR"
    } else if column < 76 {
        "COL_CALL_TARGET"
    } else if column < 77 {
        "COL_ABI_METHOD_COUNT_ADDR"
    } else if column < 78 {
        "COL_SEL_READ_ABI"
    } else if column < 79 {
        "COL_ABI_READ_REMAINING_BEFORE"
    } else if column < 80 {
        "COL_ABI_READ_REMAINING_AFTER"
    } else if column < 81 {
        "COL_ABI_READ_ORDINAL_BEFORE"
    } else if column < 82 {
        "COL_ABI_READ_ORDINAL_AFTER"
    } else if column < 83 {
        "COL_ABI_METHOD_COUNT_BEFORE"
    } else if column < 84 {
        "COL_ABI_METHOD_COUNT_AFTER"
    } else if column < 85 {
        "COL_ABI_METHOD_COUNT_INVERSE"
    } else if column < 86 {
        "COL_ENABLED_METHOD_LOG_ORDINAL"
    } else if column < 87 {
        "COL_ABI_METHOD_COUNT_WRITE"
    } else if column < 88 {
        "COL_ABI_METHOD_COUNT_READ"
    } else if column < 89 {
        "COL_ENABLED_METHOD_LOG_ADDR"
    } else if column < 90 {
        "COL_ENABLED_METHOD_LOG_UTXO"
    } else if column < 91 {
        "COL_ENABLED_METHOD_LOG_GENERATION"
    } else if column < 92 {
        "COL_ABI_GENERATION_ADDR"
    } else if column < 93 {
        "COL_ABI_GENERATION_BEFORE"
    } else if column < 94 {
        "COL_ABI_GENERATION_AFTER"
    } else if column < 95 {
        "COL_RESOURCE_RESOLVER_ADDR_CID"
    } else if column < 96 {
        "COL_RESOURCE_RESOLVER_ADDR_HANDLE"
    } else if column < 97 {
        "COL_RESOURCE_RESOLVER_VALUE"
    } else if column < 98 {
        "COL_RESOURCE_RESOLVER_WRITE"
    } else if column < 99 {
        "COL_RESOURCE_RESOLVER_READ"
    } else if column < 107 {
        "COL_EVENT_OWNER_STRIDE_8"
    } else if column < 108 {
        "COL_TX_PHASE_BEFORE"
    } else if column < 109 {
        "COL_TX_PHASE_AFTER"
    } else if column < 110 {
        "COL_LAST_INPUT_HAS_ABI_BEFORE"
    } else if column < 111 {
        "COL_LAST_INPUT_HAS_ABI_AFTER"
    } else if column < 112 {
        "COL_OUTPUT_CURSOR_BEFORE"
    } else if column < 113 {
        "COL_OUTPUT_CURSOR_AFTER"
    } else if column < 114 {
        "COL_CURR_PHASE_BEFORE"
    } else if column < 115 {
        "COL_CURR_PHASE_AFTER"
    } else if column < 116 {
        "COL_CALL_SP_BEFORE"
    } else if column < 117 {
        "COL_CALL_SP_AFTER"
    } else if column < 118 {
        "COL_NEXT_UTXO_ID_BEFORE"
    } else if column < 119 {
        "COL_NEXT_UTXO_ID_AFTER"
    } else if column < 120 {
        "COL_ENABLED_METHOD_LOG_LEN_BEFORE"
    } else if column < 121 {
        "COL_ENABLED_METHOD_LOG_LEN_AFTER"
    } else if column < 122 {
        "COL_PENDING_CTOR_PRESENT_BEFORE"
    } else if column < 123 {
        "COL_PENDING_CTOR_PRESENT_AFTER"
    } else if column < 124 {
        "COL_PENDING_CTOR_HOLDER_BEFORE"
    } else if column < 125 {
        "COL_PENDING_CTOR_HOLDER_AFTER"
    } else if column < 126 {
        "COL_PENDING_CTOR_HANDLE_BEFORE"
    } else if column < 127 {
        "COL_PENDING_CTOR_HANDLE_AFTER"
    } else if column < 131 {
        "COL_IN"
    } else if column < 135 {
        "COL_OUT"
    } else if column < 143 {
        "COL_IN_WORDS"
    } else if column < 151 {
        "COL_OUT_WORDS"
    } else if column < 155 {
        "COL_ARGUMENT_ROOT"
    } else if column < 159 {
        "COL_RESULT_ROOT"
    } else if column < 175 {
        "COL_CANONICAL_HIGH_MAX"
    } else if column < 191 {
        "COL_CANONICAL_HIGH_INV"
    } else if column < 215 {
        "COL_EVENT_BLOCKS"
    } else if column < 227 {
        "COL_EVENT_HASHES"
    } else {
        "RANGE_CHECK_BITS"
    }
}

/// Number of decomposition bits of the columns before `column`.
pub open spec fn bits_before(column: int) -> int {
    if column < 1 {
        0
    } else if column < 16 {
        0
    } else if column < 21 {
        32 * (column - 16)
    } else if column < 24 {
        160
    } else if column < 25 {
        160
    } else if column < 65 {
        160 + 32 * (column - 25)
    } else if column < 66 {
        1440 + 29 * (column - 65)
    } else if column < 67 {
        1469
    } else if column < 77 {
        1469 + 32 * (column - 67)
    } else if column < 78 {
        1789
    } else if column < 84 {
        1789 + 8 * (column - 78)
    } else if column < 85 {
        1837
    } else if column < 86 {
        1837 + 8 * (column - 85)
    } else if column < 88 {
        1845
    } else if column < 97 {
        1845 + 32 * (column - 88)
    } else if column < 99 {
        2133
    } else if column < 107 {
        2133 + 32 * (column - 99)
    } else if column < 109 {
        2389 + 2 * (column - 107)
    } else if column < 111 {
        2393
    } else if column < 113 {
        2393 + 32 * (column - 111)
    } else if column < 115 {
        2457 + 2 * (column - 113)
    } else if column < 121 {
        2461 + 32 * (column - 115)
    } else if column < 123 {
        2653
    } else if column < 127 {
        2653 + 32 * (column - 123)
    } else if column < 135 {
        2781
    } else if column < 151 {
        2781 + 32 * (column - 135)
    } else {
        3293
    }
}

/// Column that the decomposition bit number `index` belongs to.
pub open spec fn owner_of(index: int) -> int {
    if index < 160 {
        16 + index / 32
    } else if index < 1440 {
        25 + (index - 160) / 32
    } else if index < 1469 {
        65 + (index - 1440) / 29
    } else if index < 1789 {
        67 + (index - 1469) / 32
    } else if index < 1837 {
        78 + (index - 1789) / 8
    } else if index < 1845 {
        85 + (index - 1837) / 8
    } else if index < 2133 {
        88 + (index - 1845) / 32
    } else if index < 2389 {
        99 + (index - 2133) / 32
    } else if index < 2393 {
        107 + (index - 2389) / 2
    } else if index < 2457 {
        111 + (index - 2393) / 32
    } else if index < 2461 {
        113 + (index - 2457) / 2
    } else if index < 2653 {
        115 + (index - 2461) / 32
    } else if index < 2781 {
        123 + (index - 2653) / 32
    } else {
        135 + (index - 2781) / 32
    }
}

/// Column of bit `bit` in the decomposition of `column`, lowest bit first.
pub open spec fn bit_of(column: int, bit: int) -> int {
    COLUMN_COUNT + bits_before(column) + bit
}

/// The column that a decomposition bit belongs to.
pub open spec fn bit_owner(position: int) -> int {
    owner_of(position - COLUMN_COUNT)
}

/// The place of a decomposition bit in its column.
pub open spec fn bit_place(position: int) -> int {
    position - bit_of(bit_owner(position), 0)
}

/// A bit of a column is found again from its position.
pub proof fn lemma_bit_of(column: int, bit: int)
    requires
        0 <= column < COLUMN_COUNT,
        width_of(column) > 1,
        0 <= bit < width_of(column),
    ensures
        COLUMN_COUNT <= bit_of(column, bit) < ROW_WIDTH,
        bit_owner(bit_of(column, bit)) == column,
        bit_place(bit_of(column, bit)) == bit,
{
}

/// Every position behind the semantic columns is a bit of a column.
pub proof fn lemma_bit_owner(position: int)
    requires
        COLUMN_COUNT <= position < ROW_WIDTH,
    ensures
        0 <= bit_owner(position) < COLUMN_COUNT,
        width_of(bit_owner(position)) > 1,
        0 <= bit_place(position) < width_of(bit_owner(position)),
        position == bit_of(bit_owner(position), bit_place(position)),
{
}

/// [`bits_before`] a column.
fn first_bit(column: usize) -> (index: usize)
    requires
        column < COLUMN_COUNT,
    ensures
        index == bits_before(column as int),
{
    if column < 1 {
        0
    } else if column < 16 {
        0
    } else if column < 21 {
        32 * (column - 16)
    } else if column < 24 {
        160
    } else if column < 25 {
        160
    } else if column < 65 {
        160 + 32 * (column - 25)
    } else if column < 66 {
        1440 + 29 * (column - 65)
    } else if column < 67 {
        1469
    } else if column < 77 {
        1469 + 32 * (column - 67)
    } else if column < 78 {
        1789
    } else if column < 84 {
        1789 + 8 * (column - 78)
    } else if column < 85 {
        1837
    } else if column < 86 {
        1837 + 8 * (column - 85)
    } else if column < 88 {
        1845
    } else if column < 97 {
        1845 + 32 * (column - 88)
    } else if column < 99 {
        2133
    } else if column < 107 {
        2133 + 32 * (column - 99)
    } else if column < 109 {
        2389 + 2 * (column - 107)
    } else if column < 111 {
        2393
    } else if column < 113 {
        2393 + 32 * (column - 111)
    } else if column < 115 {
        2457 + 2 * (column - 113)
    } else if column < 121 {
        2461 + 32 * (column - 115)
    } else if column < 123 {
        2653
    } else if column < 127 {
        2653 + 32 * (column - 123)
    } else if column < 135 {
        2781
    } else if column < 151 {
        2781 + 32 * (column - 135)
    } else {
        3293
    }
}

/// [`bit_of`] a column and a bit.
pub fn bit_column(column: usize, bit: usize) -> (position: usize)
    requires
        column < COLUMN_COUNT,
        width_of(column as int) > 1,
        bit < width_of(column as int),
    ensures
        position == bit_of(column as int, bit as int),
        COLUMN_COUNT <= position < ROW_WIDTH,
{
    proof {
        lemma_bit_of(column as int, bit as int);
    }
    COLUMN_COUNT + first_bit(column) + bit
}

} // verus!
