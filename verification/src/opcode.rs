//! Semantic opcodes: one per kind of step, and padding.

use vstd::prelude::*;

use crate::ivc_state::CurrPhase;
use crate::layout::{
    COL_SEL_CALL_METHOD, COL_SEL_ENTER_CONSTRUCTOR, COL_SEL_ENTER_METHOD,
    COL_SEL_FINISH_TRANSACTION, COL_SEL_GET_STORAGE, COL_SEL_NEW_UTXO, COL_SEL_PADDING,
    COL_SEL_PRELOAD_METHOD, COL_SEL_READ_ABI, COL_SEL_REGISTER_METHOD, COL_SEL_RETURN,
    COL_SEL_SET_STORAGE, COL_SEL_SKIP_CONSUMED, COL_SEL_YIELD_BEGIN,
};
use crate::trace::Step;

verus! {

/// What a row of the relation does.
#[derive(Clone, Copy, Debug, PartialEq, Eq, Structural)]
pub enum Opcode {
    NewUtxo,
    EnterConstructor,
    YieldBegin,
    RegisterMethod,
    Return,
    CallMethod,
    EnterMethod,
    Padding,
    SetStorage,
    PreloadMethod,
    GetStorage,
    SkipConsumed,
    FinishTransaction,
    ReadAbi,
}

/// Number of opcodes.
pub const OPCODE_COUNT: usize = 14;

/// Every opcode, in declaration order.
pub open spec fn opcodes() -> Seq<Opcode> {
    seq![
        Opcode::NewUtxo,
        Opcode::EnterConstructor,
        Opcode::YieldBegin,
        Opcode::RegisterMethod,
        Opcode::Return,
        Opcode::CallMethod,
        Opcode::EnterMethod,
        Opcode::Padding,
        Opcode::SetStorage,
        Opcode::PreloadMethod,
        Opcode::GetStorage,
        Opcode::SkipConsumed,
        Opcode::FinishTransaction,
        Opcode::ReadAbi,
    ]
}

impl Opcode {
    /// The opcode of a step.
    pub open spec fn of_step(step: Step) -> Opcode {
        match step {
            Step::ReadAbi { .. } => Opcode::ReadAbi,
            Step::SetStorage { .. } => Opcode::SetStorage,
            Step::PreloadMethod { .. } => Opcode::PreloadMethod,
            Step::GetStorage { .. } => Opcode::GetStorage,
            Step::SkipConsumed => Opcode::SkipConsumed,
            Step::FinishTransaction => Opcode::FinishTransaction,
            Step::NewUtxo { .. } => Opcode::NewUtxo,
            Step::EnterConstructor { .. } => Opcode::EnterConstructor,
            Step::YieldBegin => Opcode::YieldBegin,
            Step::RegisterMethod { .. } => Opcode::RegisterMethod,
            Step::Return { .. } => Opcode::Return,
            Step::CallMethod { .. } => Opcode::CallMethod,
            Step::EnterMethod { .. } => Opcode::EnterMethod,
        }
    }

    /// The opcode of a step.
    pub fn from(step: &Step) -> (opcode: Opcode)
        ensures
            opcode == Opcode::of_step(*step),
    {
        match step {
            Step::ReadAbi { .. } => Opcode::ReadAbi,
            Step::SetStorage { .. } => Opcode::SetStorage,
            Step::PreloadMethod { .. } => Opcode::PreloadMethod,
            Step::GetStorage { .. } => Opcode::GetStorage,
            Step::SkipConsumed => Opcode::SkipConsumed,
            Step::FinishTransaction => Opcode::FinishTransaction,
            Step::NewUtxo { .. } => Opcode::NewUtxo,
            Step::EnterConstructor { .. } => Opcode::EnterConstructor,
            Step::YieldBegin => Opcode::YieldBegin,
            Step::RegisterMethod { .. } => Opcode::RegisterMethod,
            Step::Return { .. } => Opcode::Return,
            Step::CallMethod { .. } => Opcode::CallMethod,
            Step::EnterMethod { .. } => Opcode::EnterMethod,
        }
    }

    /// Whether a coroutine executes.
    #[verifier::allow_in_spec]
    pub fn is_execution(&self) -> bool
        returns
            (match self {
                Opcode::NewUtxo => true,
                Opcode::EnterConstructor => true,
                Opcode::YieldBegin => true,
                Opcode::RegisterMethod => true,
                Opcode::Return => true,
                Opcode::CallMethod => true,
                Opcode::EnterMethod => true,
                _ => false,
            }),
    {
        match self {
            Opcode::NewUtxo => true,
            Opcode::EnterConstructor => true,
            Opcode::YieldBegin => true,
            Opcode::RegisterMethod => true,
            Opcode::Return => true,
            Opcode::CallMethod => true,
            Opcode::EnterMethod => true,
            _ => false,
        }
    }

    /// Whether a method is appended to the enabled-method log.
    #[verifier::allow_in_spec]
    pub fn appends_method(&self) -> bool
        returns
            *self == Opcode::RegisterMethod || *self == Opcode::PreloadMethod,
    {
        *self == Opcode::RegisterMethod || *self == Opcode::PreloadMethod
    }

    /// Whether a program event is emitted.
    #[verifier::allow_in_spec]
    pub fn has_event(&self) -> bool
        returns
            self.is_execution() || *self == Opcode::SetStorage || *self == Opcode::GetStorage,
    {
        self.is_execution() || *self == Opcode::SetStorage || *self == Opcode::GetStorage
    }

    /// Whether the output scan advances.
    #[verifier::allow_in_spec]
    pub fn scans_output(&self) -> bool
        returns
            *self == Opcode::GetStorage || *self == Opcode::SkipConsumed,
    {
        *self == Opcode::GetStorage || *self == Opcode::SkipConsumed
    }

    /// Phase of the coroutine that has the turn afterwards.
    #[verifier::allow_in_spec]
    pub fn phase_after(&self, before: CurrPhase) -> CurrPhase
        returns
            (match self {
                Opcode::NewUtxo => CurrPhase::CtorEnterPending,
                Opcode::CallMethod => CurrPhase::MethodEnterPending,
                Opcode::EnterConstructor => CurrPhase::Yield,
                Opcode::YieldBegin => CurrPhase::Yield,
                Opcode::EnterMethod => CurrPhase::Executing,
                Opcode::Return => CurrPhase::Executing,
                _ => before,
            }),
    {
        match self {
            Opcode::NewUtxo => CurrPhase::CtorEnterPending,
            Opcode::CallMethod => CurrPhase::MethodEnterPending,
            Opcode::EnterConstructor => CurrPhase::Yield,
            Opcode::YieldBegin => CurrPhase::Yield,
            Opcode::EnterMethod => CurrPhase::Executing,
            Opcode::Return => CurrPhase::Executing,
            _ => before,
        }
    }

    /// Position of the opcode in declaration order.
    pub open spec fn position(self) -> int {
        match self {
            Opcode::NewUtxo => 0,
            Opcode::EnterConstructor => 1,
            Opcode::YieldBegin => 2,
            Opcode::RegisterMethod => 3,
            Opcode::Return => 4,
            Opcode::CallMethod => 5,
            Opcode::EnterMethod => 6,
            Opcode::Padding => 7,
            Opcode::SetStorage => 8,
            Opcode::PreloadMethod => 9,
            Opcode::GetStorage => 10,
            Opcode::SkipConsumed => 11,
            Opcode::FinishTransaction => 12,
            Opcode::ReadAbi => 13,
        }
    }

    /// Every opcode, each once, in declaration order.
    pub fn all() -> (all: Vec<Opcode>)
        ensures
            all@ == opcodes(),
            all@.len() == OPCODE_COUNT,
            forall|op: Opcode| 0 <= #[trigger] op.position() < all@.len() && all@[op.position()] == op,
    {
        let all = vec![
            Opcode::NewUtxo,
            Opcode::EnterConstructor,
            Opcode::YieldBegin,
            Opcode::RegisterMethod,
            Opcode::Return,
            Opcode::CallMethod,
            Opcode::EnterMethod,
            Opcode::Padding,
            Opcode::SetStorage,
            Opcode::PreloadMethod,
            Opcode::GetStorage,
            Opcode::SkipConsumed,
            Opcode::FinishTransaction,
            Opcode::ReadAbi,
        ];
        assert(all@ =~= opcodes());
        all
    }

    /// Whether a frame is pushed on the call stack.
    #[verifier::allow_in_spec]
    pub fn pushes_to_call_stack(&self) -> bool
        returns
            *self == Opcode::NewUtxo || *self == Opcode::CallMethod,
    {
        *self == Opcode::NewUtxo || *self == Opcode::CallMethod
    }

    /// Whether the top frame is popped from the call stack.
    #[verifier::allow_in_spec]
    pub fn pops_from_call_stack(&self) -> bool
        returns
            *self == Opcode::Return,
    {
        *self == Opcode::Return
    }

    /// Whether the top frame is read and stays.
    #[verifier::allow_in_spec]
    pub fn peeks_call_stack_top(&self) -> bool
        returns
            *self == Opcode::EnterConstructor || *self == Opcode::EnterMethod,
    {
        *self == Opcode::EnterConstructor || *self == Opcode::EnterMethod
    }

    /// Whether control is transferred to the call target.
    #[verifier::allow_in_spec]
    pub fn switches_curr(&self) -> bool
        returns
            self.pushes_to_call_stack() || self.pops_from_call_stack(),
    {
        self.pushes_to_call_stack() || self.pops_from_call_stack()
    }

    /// Column that selects the opcode.
    #[verifier::allow_in_spec]
    pub fn selector(&self) -> usize
        returns
            (match self {
                Opcode::ReadAbi => COL_SEL_READ_ABI,
                Opcode::SetStorage => COL_SEL_SET_STORAGE,
                Opcode::PreloadMethod => COL_SEL_PRELOAD_METHOD,
                Opcode::GetStorage => COL_SEL_GET_STORAGE,
                Opcode::SkipConsumed => COL_SEL_SKIP_CONSUMED,
                Opcode::FinishTransaction => COL_SEL_FINISH_TRANSACTION,
                Opcode::Padding => COL_SEL_PADDING,
                Opcode::NewUtxo => COL_SEL_NEW_UTXO,
                Opcode::EnterConstructor => COL_SEL_ENTER_CONSTRUCTOR,
                Opcode::YieldBegin => COL_SEL_YIELD_BEGIN,
                Opcode::RegisterMethod => COL_SEL_REGISTER_METHOD,
                Opcode::Return => COL_SEL_RETURN,
                Opcode::CallMethod => COL_SEL_CALL_METHOD,
                Opcode::EnterMethod => COL_SEL_ENTER_METHOD,
            }),
    {
        match self {
            Opcode::ReadAbi => COL_SEL_READ_ABI,
            Opcode::SetStorage => COL_SEL_SET_STORAGE,
            Opcode::PreloadMethod => COL_SEL_PRELOAD_METHOD,
            Opcode::GetStorage => COL_SEL_GET_STORAGE,
            Opcode::SkipConsumed => COL_SEL_SKIP_CONSUMED,
            Opcode::FinishTransaction => COL_SEL_FINISH_TRANSACTION,
            Opcode::Padding => COL_SEL_PADDING,
            Opcode::NewUtxo => COL_SEL_NEW_UTXO,
            Opcode::EnterConstructor => COL_SEL_ENTER_CONSTRUCTOR,
            Opcode::YieldBegin => COL_SEL_YIELD_BEGIN,
            Opcode::RegisterMethod => COL_SEL_REGISTER_METHOD,
            Opcode::Return => COL_SEL_RETURN,
            Opcode::CallMethod => COL_SEL_CALL_METHOD,
            Opcode::EnterMethod => COL_SEL_ENTER_METHOD,
        }
    }
}

/// An opcode pushes a frame, pops one or reads the top one, never two of these.
pub proof fn law_call_stack_access_modes_are_disjoint(op: Opcode)
    ensures
        !(op.pushes_to_call_stack() && op.pops_from_call_stack()),
        !(op.pushes_to_call_stack() && op.peeks_call_stack_top()),
        !(op.pops_from_call_stack() && op.peeks_call_stack_top()),
{
}

/// Different opcodes have different selectors.
pub proof fn law_selectors_are_distinct(a: Opcode, b: Opcode)
    ensures
        a.selector() == b.selector() ==> a == b,
{
}

} // verus!
