//! State that is carried from one row of the relation to the next.

use vstd::prelude::*;

use crate::layout::{
    COL_ABI_READ_ORDINAL_AFTER, COL_ABI_READ_ORDINAL_BEFORE, COL_ABI_READ_REMAINING_AFTER,
    COL_ABI_READ_REMAINING_BEFORE, COL_CALL_SP_AFTER, COL_CALL_SP_BEFORE, COL_CURR_AFTER,
    COL_CURR_BEFORE, COL_CURR_PHASE_AFTER, COL_CURR_PHASE_BEFORE, COL_ENABLED_METHOD_LOG_LEN_AFTER,
    COL_ENABLED_METHOD_LOG_LEN_BEFORE, COL_LAST_INPUT_HAS_ABI_AFTER, COL_LAST_INPUT_HAS_ABI_BEFORE,
    COL_NEXT_UTXO_ID_AFTER, COL_NEXT_UTXO_ID_BEFORE, COL_OUTPUT_CURSOR_AFTER,
    COL_OUTPUT_CURSOR_BEFORE, COL_PENDING_CTOR_HANDLE_AFTER, COL_PENDING_CTOR_HANDLE_BEFORE,
    COL_PENDING_CTOR_HOLDER_AFTER, COL_PENDING_CTOR_HOLDER_BEFORE, COL_PENDING_CTOR_PRESENT_AFTER,
    COL_PENDING_CTOR_PRESENT_BEFORE, COL_TX_PHASE_AFTER, COL_TX_PHASE_BEFORE,
};

verus! {

/// Phase of the coroutine that has the turn.
///
/// The values are chosen so that the phase preconditions have simple two-bit
/// encodings: constructor entry requires `01`, method entry requires `10`, and a
/// return allows equal bits.
#[derive(Clone, Copy, Debug, PartialEq, Eq, Structural)]
pub enum CurrPhase {
    Executing,
    CtorEnterPending,
    MethodEnterPending,
    Yield,
}

impl CurrPhase {
    /// Two-bit encoding of the phase.
    #[verifier::allow_in_spec]
    pub fn value(self) -> u8
        returns
            (match self {
                CurrPhase::Executing => 0u8,
                CurrPhase::CtorEnterPending => 1,
                CurrPhase::MethodEnterPending => 2,
                CurrPhase::Yield => 3,
            }),
    {
        match self {
            CurrPhase::Executing => 0,
            CurrPhase::CtorEnterPending => 1,
            CurrPhase::MethodEnterPending => 2,
            CurrPhase::Yield => 3,
        }
    }
}

/// Phase of the transaction. Output processing remains in `Running`.
#[derive(Clone, Copy, Debug, PartialEq, Eq, Structural)]
pub enum TxPhase {
    Loading,
    Running,
    Finished,
}

impl TxPhase {
    /// Two-bit encoding of the phase.
    #[verifier::allow_in_spec]
    pub fn value(self) -> u64
        returns
            (match self {
                TxPhase::Loading => 0u64,
                TxPhase::Running => 1,
                TxPhase::Finished => 2,
            }),
    {
        match self {
            TxPhase::Loading => 0,
            TxPhase::Running => 1,
            TxPhase::Finished => 2,
        }
    }
}

/// Identity of a coroutine instance.
#[derive(Clone, Copy, Debug, PartialEq, Eq, Hash, Structural)]
pub enum CoroutineId {
    Coord(u32),
    Utxo(u32),
}

/// The two kinds of coroutine.
#[derive(Clone, Copy, Debug, PartialEq, Eq, Structural)]
pub enum CoroutineKind {
    Coord,
    Utxo,
}

impl CoroutineKind {
    /// Low bit of the packed identity of a coroutine of this kind.
    #[verifier::allow_in_spec]
    pub fn tag(self) -> u32
        returns
            (match self {
                CoroutineKind::Coord => 0u32,
                CoroutineKind::Utxo => 1,
            }),
    {
        match self {
            CoroutineKind::Coord => 0,
            CoroutineKind::Utxo => 1,
        }
    }
}

impl CoroutineId {
    /// Packed identity: the low bit is the kind, the other bits are the local ID,
    /// so that `Coord(i)` is `2 * i` and `Utxo(i)` is `2 * i + 1`.
    pub open spec fn packed(self) -> u64 {
        match self {
            CoroutineId::Coord(id) => (2 * id) as u64,
            CoroutineId::Utxo(id) => (2 * id + 1) as u64,
        }
    }

    /// The packed identity of a coroutine whose local ID leaves room for the kind.
    pub fn encoded(self) -> (packed: u32)
        requires
            self.packed() <= u32::MAX,
        ensures
            packed == self.packed(),
    {
        match self {
            CoroutineId::Coord(id) => 2 * id,
            CoroutineId::Utxo(id) => 2 * id + 1,
        }
    }

    /// The packed identity, whatever the local ID.
    pub(crate) fn field(self) -> (packed: u64)
        ensures
            packed == self.packed(),
    {
        match self {
            CoroutineId::Coord(id) => 2 * (id as u64),
            CoroutineId::Utxo(id) => 2 * (id as u64) + 1,
        }
    }
}

/// Different instances have different packed identities.
pub proof fn lemma_packed_injective(a: CoroutineId, b: CoroutineId)
    ensures
        a.packed() == b.packed() ==> a == b,
{
}

/// A column of one row that must equal a column of the next row.
#[derive(Clone, Copy, Debug, PartialEq, Eq)]
pub struct ContinuityLink {
    /// Name of the carried state that the link belongs to.
    pub group: &'static str,
    pub previous_step_column: usize,
    pub next_step_column: usize,
}

/// A link of two columns.
pub open spec fn link(group: &'static str, previous: usize, next: usize) -> ContinuityLink {
    ContinuityLink { group, previous_step_column: previous, next_step_column: next }
}

/// Number of carried columns.
pub const LINK_COUNT: usize = 13;

/// The carried columns.
pub open spec fn carried() -> Seq<ContinuityLink> {
    seq![
        link("transaction_continuity", COL_TX_PHASE_AFTER, COL_TX_PHASE_BEFORE),
        link("transaction_continuity", COL_LAST_INPUT_HAS_ABI_AFTER, COL_LAST_INPUT_HAS_ABI_BEFORE),
        link("transaction_continuity", COL_OUTPUT_CURSOR_AFTER, COL_OUTPUT_CURSOR_BEFORE),
        link("transaction_continuity", COL_ABI_READ_REMAINING_AFTER, COL_ABI_READ_REMAINING_BEFORE),
        link("transaction_continuity", COL_ABI_READ_ORDINAL_AFTER, COL_ABI_READ_ORDINAL_BEFORE),
        link("curr_continuity", COL_CURR_AFTER, COL_CURR_BEFORE),
        link("curr_phase_continuity", COL_CURR_PHASE_AFTER, COL_CURR_PHASE_BEFORE),
        link("call_stack_pointer_continuity", COL_CALL_SP_AFTER, COL_CALL_SP_BEFORE),
        link("next_utxo_id_continuity", COL_NEXT_UTXO_ID_AFTER, COL_NEXT_UTXO_ID_BEFORE),
        link(
            "enabled_method_log_length_continuity",
            COL_ENABLED_METHOD_LOG_LEN_AFTER,
            COL_ENABLED_METHOD_LOG_LEN_BEFORE,
        ),
        link(
            "pending_constructor_key_continuity",
            COL_PENDING_CTOR_PRESENT_AFTER,
            COL_PENDING_CTOR_PRESENT_BEFORE,
        ),
        link(
            "pending_constructor_key_continuity",
            COL_PENDING_CTOR_HOLDER_AFTER,
            COL_PENDING_CTOR_HOLDER_BEFORE,
        ),
        link(
            "pending_constructor_key_continuity",
            COL_PENDING_CTOR_HANDLE_AFTER,
            COL_PENDING_CTOR_HANDLE_BEFORE,
        ),
    ]
}

/// [`link`] of two columns.
fn new_link(group: &'static str, previous: usize, next: usize) -> (r: ContinuityLink)
    ensures
        r == link(group, previous, next),
{
    ContinuityLink { group, previous_step_column: previous, next_step_column: next }
}

/// The carried columns: transaction phase, ABI nonemptiness of the last input,
/// output cursor and ABI enumeration progress; the coroutine that has the turn
/// and its phase; the call-stack pointer; the UTXO allocator; the length of the
/// enabled-method log; and the resource key of a pending constructor.
pub fn build_ivc_state_continuity_links() -> (links: Vec<ContinuityLink>)
    ensures
        links@ == carried(),
        links@.len() == LINK_COUNT,
{
    let links = vec![
        new_link("transaction_continuity", COL_TX_PHASE_AFTER, COL_TX_PHASE_BEFORE),
        new_link(
            "transaction_continuity",
            COL_LAST_INPUT_HAS_ABI_AFTER,
            COL_LAST_INPUT_HAS_ABI_BEFORE,
        ),
        new_link("transaction_continuity", COL_OUTPUT_CURSOR_AFTER, COL_OUTPUT_CURSOR_BEFORE),
        new_link(
            "transaction_continuity",
            COL_ABI_READ_REMAINING_AFTER,
            COL_ABI_READ_REMAINING_BEFORE,
        ),
        new_link("transaction_continuity", COL_ABI_READ_ORDINAL_AFTER, COL_ABI_READ_ORDINAL_BEFORE),
        new_link("curr_continuity", COL_CURR_AFTER, COL_CURR_BEFORE),
        new_link("curr_phase_continuity", COL_CURR_PHASE_AFTER, COL_CURR_PHASE_BEFORE),
        new_link("call_stack_pointer_continuity", COL_CALL_SP_AFTER, COL_CALL_SP_BEFORE),
        new_link("next_utxo_id_continuity", COL_NEXT_UTXO_ID_AFTER, COL_NEXT_UTXO_ID_BEFORE),
        new_link(
            "enabled_method_log_length_continuity",
            COL_ENABLED_METHOD_LOG_LEN_AFTER,
            COL_ENABLED_METHOD_LOG_LEN_BEFORE,
        ),
        new_link(
            "pending_constructor_key_continuity",
            COL_PENDING_CTOR_PRESENT_AFTER,
            COL_PENDING_CTOR_PRESENT_BEFORE,
        ),
        new_link(
            "pending_constructor_key_continuity",
            COL_PENDING_CTOR_HOLDER_AFTER,
            COL_PENDING_CTOR_HOLDER_BEFORE,
        ),
        new_link(
            "pending_constructor_key_continuity",
            COL_PENDING_CTOR_HANDLE_AFTER,
            COL_PENDING_CTOR_HANDLE_BEFORE,
        ),
    ];
    assert(links@ =~= carried());
    links
}

} // verus!
