//! Sets of opcodes that constraints treat alike.

use vstd::prelude::*;

use crate::opcode::{opcodes, Opcode, OPCODE_COUNT};
use crate::relation::Term;

verus! {

/// A set of opcodes.
#[derive(Clone, Copy, Debug, PartialEq, Eq, Structural)]
pub enum OpcodeGroup {
    All,
    /// Those of an executing coroutine.
    Execution,
    /// Those of no executing coroutine, padding apart.
    NonExecution,
    SwitchesCurr,
    Pushes,
    Pops,
    Peeks,
    /// Those that leave the call stack as it is.
    PreservesStack,
    AppendsMethod,
    HasEvent,
    ScansOutput,
    /// Those that write a registration count.
    WritesCount,
    /// Those that leave the ABI flag of the last input as it is, padding apart.
    PreservesInputFlag,
    /// The output scan and its end.
    Finalization,
    /// Those that need a completed ABI enumeration.
    EnumerationDone,
    /// Those that leave the ABI enumeration as it is, padding apart.
    PreservesEnumeration,
    /// Those whose event belongs to a loaded or exported UTXO.
    StorageEvent,
    /// Those whose event belongs to the current coroutine.
    OwnEvent,
    /// Those whose event has the given number of blocks.
    EventBlocks(usize),
}

/// Number of blocks of the event of an opcode; zero where it emits none.
pub open spec fn block_count(op: Opcode) -> usize {
    match crate::commitment::kind(op) {
        Some(kind) => kind.template().len() as usize,
        None => 0,
    }
}

impl OpcodeGroup {
    /// Whether an opcode belongs to the group.
    pub open spec fn has(self, op: Opcode) -> bool {
        match self {
            OpcodeGroup::All => true,
            OpcodeGroup::Execution => op.is_execution(),
            OpcodeGroup::NonExecution => !op.is_execution() && op != Opcode::Padding,
            OpcodeGroup::SwitchesCurr => op.switches_curr(),
            OpcodeGroup::Pushes => op.pushes_to_call_stack(),
            OpcodeGroup::Pops => op.pops_from_call_stack(),
            OpcodeGroup::Peeks => op.peeks_call_stack_top(),
            OpcodeGroup::PreservesStack => !op.pushes_to_call_stack() && !op.pops_from_call_stack(),
            OpcodeGroup::AppendsMethod => op.appends_method(),
            OpcodeGroup::HasEvent => op.has_event(),
            OpcodeGroup::ScansOutput => op.scans_output(),
            OpcodeGroup::WritesCount => op.appends_method() || op == Opcode::YieldBegin,
            OpcodeGroup::PreservesInputFlag => op != Opcode::SetStorage && op
                != Opcode::PreloadMethod && op != Opcode::Padding,
            OpcodeGroup::Finalization => op.scans_output() || op == Opcode::FinishTransaction,
            OpcodeGroup::EnumerationDone => op != Opcode::ReadAbi && op != Opcode::Padding,
            OpcodeGroup::PreservesEnumeration => op != Opcode::GetStorage && op != Opcode::ReadAbi
                && op != Opcode::Padding,
            OpcodeGroup::StorageEvent => op == Opcode::SetStorage || op == Opcode::GetStorage,
            OpcodeGroup::OwnEvent => op.has_event() && op != Opcode::SetStorage && op
                != Opcode::GetStorage,
            OpcodeGroup::EventBlocks(n) => block_count(op) == n,
        }
    }

    /// Whether an opcode belongs to the group.
    pub fn includes(self, op: Opcode) -> (r: bool)
        ensures
            r == self.has(op),
    {
        match self {
            OpcodeGroup::All => true,
            OpcodeGroup::Execution => op.is_execution(),
            OpcodeGroup::NonExecution => !op.is_execution() && op != Opcode::Padding,
            OpcodeGroup::SwitchesCurr => op.switches_curr(),
            OpcodeGroup::Pushes => op.pushes_to_call_stack(),
            OpcodeGroup::Pops => op.pops_from_call_stack(),
            OpcodeGroup::Peeks => op.peeks_call_stack_top(),
            OpcodeGroup::PreservesStack => !op.pushes_to_call_stack() && !op.pops_from_call_stack(),
            OpcodeGroup::AppendsMethod => op.appends_method(),
            OpcodeGroup::HasEvent => op.has_event(),
            OpcodeGroup::ScansOutput => op.scans_output(),
            OpcodeGroup::WritesCount => op.appends_method() || op == Opcode::YieldBegin,
            OpcodeGroup::PreservesInputFlag => op != Opcode::SetStorage && op
                != Opcode::PreloadMethod && op != Opcode::Padding,
            OpcodeGroup::Finalization => op.scans_output() || op == Opcode::FinishTransaction,
            OpcodeGroup::EnumerationDone => op != Opcode::ReadAbi && op != Opcode::Padding,
            OpcodeGroup::PreservesEnumeration => op != Opcode::GetStorage && op != Opcode::ReadAbi
                && op != Opcode::Padding,
            OpcodeGroup::StorageEvent => op == Opcode::SetStorage || op == Opcode::GetStorage,
            OpcodeGroup::OwnEvent => op.has_event() && op != Opcode::SetStorage && op
                != Opcode::GetStorage,
            OpcodeGroup::EventBlocks(n) => match crate::commitment::kind(op) {
                Some(kind) => kind.blocks().len() == n,
                None => n == 0,
            },
        }
    }

    /// The selectors of those of the first `n` opcodes that belong to the group.
    pub open spec fn selectors_of(self, n: int) -> Seq<Term>
        decreases n,
    {
        if n <= 0 {
            seq![]
        } else if self.has(opcodes()[n - 1]) {
            self.selectors_of(n - 1).push((opcodes()[n - 1].selector(), 1i64))
        } else {
            self.selectors_of(n - 1)
        }
    }

    /// The sum of the selectors of the group: one where an opcode of the group is
    /// selected, else zero.
    pub open spec fn selectors(self) -> Seq<Term> {
        self.selectors_of(OPCODE_COUNT as int)
    }

    /// [`OpcodeGroup::selectors`] of the group.
    pub fn selector_terms(self) -> (terms: Vec<Term>)
        ensures
            terms@ == self.selectors(),
    {
        let all = Opcode::all();
        let mut terms: Vec<Term> = Vec::new();
        let mut n: usize = 0;
        while n < OPCODE_COUNT
            invariant
                all@ == opcodes(),
                all@.len() == OPCODE_COUNT,
                n <= OPCODE_COUNT,
                terms@ == self.selectors_of(n as int),
            decreases OPCODE_COUNT - n,
        {
            let op = all[n];
            if self.includes(op) {
                terms.push((op.selector(), 1));
            }
            n = n + 1;
        }
        terms
    }
}

} // verus!
