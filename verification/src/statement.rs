//! What checked rows say of the inputs and outputs of a transaction.

use vstd::prelude::*;

use crate::error::{Error, Unsatisfied};
use crate::layout::{
    COL_ABI_READ_ORDINAL_BEFORE, COL_ABI_READ_REMAINING_BEFORE, COL_ARGUMENT_ROOT,
    COL_CALL_SP_BEFORE, COL_CURR_BEFORE, COL_CURR_PHASE_BEFORE, COL_ENABLED_METHOD_LOG_LEN_BEFORE,
    COL_LAST_INPUT_HAS_ABI_BEFORE, COL_METHOD_HASH_VALUE, COL_NEXT_UTXO_ID_BEFORE,
    COL_OUTPUT_CURSOR_BEFORE, COL_PENDING_CTOR_HANDLE_BEFORE, COL_PENDING_CTOR_HOLDER_BEFORE,
    COL_PENDING_CTOR_PRESENT_BEFORE, COL_RESULT_ROOT, COL_SEL_GET_STORAGE, COL_SEL_PRELOAD_METHOD,
    COL_SEL_READ_ABI, COL_SEL_SET_STORAGE, COL_TX_PHASE_AFTER, COL_TX_PHASE_BEFORE,
};
use crate::memory::{column_value, row_views, value_of};
use crate::method_table::same_method;
use crate::trace::{InputUtxo, MethodHash, OutputUtxo, TransactionStatement};

verus! {

/// An input that rows load: its storage and the methods preloaded for it.
#[verifier::ext_equal]
pub struct LoadedInput {
    pub storage: [u64; 4],
    pub methods: Seq<MethodHash>,
}

/// An output that rows export: its UTXO, its storage and its methods.
#[verifier::ext_equal]
pub struct ExportedOutput {
    pub utxo: u64,
    pub storage: [u64; 4],
    pub methods: Seq<MethodHash>,
}

/// What rows load and export.
#[verifier::ext_equal]
pub struct Boundary {
    pub inputs: Seq<LoadedInput>,
    pub outputs: Seq<ExportedOutput>,
    /// No method comes before the input or output that it belongs to.
    pub ordered: bool,
}

/// Whether a row selects an opcode by its selector column.
pub open spec fn selects(z: Seq<u64>, selector: usize) -> bool {
    value_of(z, selector) == 1
}

/// A root of a row.
pub open spec fn root(z: Seq<u64>, first: usize) -> [u64; 4] {
    [
        value_of(z, first),
        value_of(z, (first + 1) as usize),
        value_of(z, (first + 2) as usize),
        value_of(z, (first + 3) as usize),
    ]
}

/// Limb `i` of the method of a row.
pub open spec fn method_limb(z: Seq<u64>, i: int) -> u64 {
    value_of(z, (COL_METHOD_HASH_VALUE + i) as usize)
}

/// The method of a row.
pub open spec fn row_method(z: Seq<u64>) -> MethodHash {
    MethodHash(
        [
            method_limb(z, 0) as u32,
            method_limb(z, 1) as u32,
            method_limb(z, 2) as u32,
            method_limb(z, 3) as u32,
            method_limb(z, 4) as u32,
            method_limb(z, 5) as u32,
            method_limb(z, 6) as u32,
            method_limb(z, 7) as u32,
        ],
    )
}

/// Whether the method limbs of a row that loads or reads a method are in range.
pub open spec fn method_in_range(z: Seq<u64>) -> bool {
    selects(z, COL_SEL_PRELOAD_METHOD) || selects(z, COL_SEL_READ_ABI) ==> (forall|i: int|
        0 <= i < 8 ==> #[trigger] method_limb(z, i) <= u32::MAX)
}

impl Boundary {
    pub open spec fn load(self, z: Seq<u64>) -> Boundary {
        if selects(z, COL_SEL_SET_STORAGE) {
            Boundary {
                inputs: self.inputs.push(
                    LoadedInput { storage: root(z, COL_ARGUMENT_ROOT), methods: seq![] },
                ),
                ..self
            }
        } else {
            self
        }
    }

    pub open spec fn preload(self, z: Seq<u64>) -> Boundary {
        if !selects(z, COL_SEL_PRELOAD_METHOD) {
            self
        } else if self.inputs.len() == 0 {
            Boundary { ordered: false, ..self }
        } else {
            let last = self.inputs.last();
            Boundary {
                inputs: self.inputs.update(
                    self.inputs.len() - 1,
                    LoadedInput { methods: last.methods.push(row_method(z)), ..last },
                ),
                ..self
            }
        }
    }

    pub open spec fn export(self, z: Seq<u64>) -> Boundary {
        if selects(z, COL_SEL_GET_STORAGE) {
            Boundary {
                outputs: self.outputs.push(
                    ExportedOutput {
                        utxo: value_of(z, COL_OUTPUT_CURSOR_BEFORE),
                        storage: root(z, COL_RESULT_ROOT),
                        methods: seq![],
                    },
                ),
                ..self
            }
        } else {
            self
        }
    }

    pub open spec fn enumerate(self, z: Seq<u64>) -> Boundary {
        if !selects(z, COL_SEL_READ_ABI) {
            self
        } else if self.outputs.len() == 0 {
            Boundary { ordered: false, ..self }
        } else {
            let last = self.outputs.last();
            Boundary {
                outputs: self.outputs.update(
                    self.outputs.len() - 1,
                    ExportedOutput { methods: last.methods.push(row_method(z)), ..last },
                ),
                ..self
            }
        }
    }

    /// With one row more.
    pub open spec fn with_row(self, z: Seq<u64>) -> Boundary {
        self.load(z).preload(z).export(z).enumerate(z)
    }
}

/// What the first `n` rows load and export.
pub open spec fn boundary_of(rows: Seq<Seq<u64>>, n: int) -> Boundary
    decreases n,
{
    if n <= 0 {
        Boundary { inputs: seq![], outputs: seq![], ordered: true }
    } else {
        boundary_of(rows, n - 1).with_row(rows[n - 1])
    }
}

/// The inputs of a statement.
pub open spec fn stated_inputs(statement: TransactionStatement) -> Seq<LoadedInput> {
    Seq::new(
        statement.inputs@.len(),
        |i: int|
            LoadedInput {
                storage: statement.inputs@[i].storage.0,
                methods: statement.inputs@[i].methods@,
            },
    )
}

/// The outputs of a statement.
pub open spec fn stated_outputs(statement: TransactionStatement) -> Seq<ExportedOutput> {
    Seq::new(
        statement.outputs@.len(),
        |i: int|
            ExportedOutput {
                utxo: statement.outputs@[i].utxo as u64,
                storage: statement.outputs@[i].storage.0,
                methods: statement.outputs@[i].methods@,
            },
    )
}

/// Whether a row starts from the initial state of a transaction: loading, with the
/// frame of the first coordinator and nothing else.
pub open spec fn starts_transaction(z: Seq<u64>) -> bool {
    &&& value_of(z, COL_TX_PHASE_BEFORE) == 0
    &&& value_of(z, COL_LAST_INPUT_HAS_ABI_BEFORE) == 1
    &&& value_of(z, COL_OUTPUT_CURSOR_BEFORE) == 0
    &&& value_of(z, COL_ABI_READ_REMAINING_BEFORE) == 0
    &&& value_of(z, COL_ABI_READ_ORDINAL_BEFORE) == 0
    &&& value_of(z, COL_CURR_BEFORE) == 2
    &&& value_of(z, COL_CURR_PHASE_BEFORE) == 0
    &&& value_of(z, COL_CALL_SP_BEFORE) == 1
    &&& value_of(z, COL_NEXT_UTXO_ID_BEFORE) == 0
    &&& value_of(z, COL_ENABLED_METHOD_LOG_LEN_BEFORE) == 0
    &&& value_of(z, COL_PENDING_CTOR_PRESENT_BEFORE) == 0
    &&& value_of(z, COL_PENDING_CTOR_HOLDER_BEFORE) == 0
    &&& value_of(z, COL_PENDING_CTOR_HANDLE_BEFORE) == 0
}

/// Whether rows are those of a finished transaction with the inputs and outputs of a
/// statement, in its order.
pub open spec fn statement_holds(rows: Seq<Seq<u64>>, statement: TransactionStatement) -> bool {
    let boundary = boundary_of(rows, rows.len() as int);
    &&& rows.len() > 0
    &&& starts_transaction(rows[0])
    &&& value_of(rows.last(), COL_TX_PHASE_AFTER) == 2
    &&& boundary.ordered
    &&& boundary.inputs == stated_inputs(statement)
    &&& boundary.outputs == stated_outputs(statement)
}

/// An input or output as rows give it.
struct Seen {
    utxo: u64,
    storage: [u64; 4],
    methods: Vec<MethodHash>,
}

spec fn seen_inputs(seen: Seq<Seen>) -> Seq<LoadedInput> {
    Seq::new(
        seen.len(),
        |i: int| LoadedInput { storage: seen[i].storage, methods: seen[i].methods@ },
    )
}

spec fn seen_outputs(seen: Seq<Seen>) -> Seq<ExportedOutput> {
    Seq::new(
        seen.len(),
        |i: int|
            ExportedOutput {
                utxo: seen[i].utxo,
                storage: seen[i].storage,
                methods: seen[i].methods@,
            },
    )
}

fn is_selected(z: &Vec<u64>, selector: usize) -> (r: bool)
    ensures
        r == selects(z@, selector),
{
    column_value(z, selector) == 1
}

fn root_of(z: &Vec<u64>, first: usize) -> (r: [u64; 4])
    requires
        first + 3 <= usize::MAX,
    ensures
        r == root(z@, first),
{
    [
        column_value(z, first),
        column_value(z, first + 1),
        column_value(z, first + 2),
        column_value(z, first + 3),
    ]
}

fn limb_of(z: &Vec<u64>, i: usize) -> (r: u32)
    requires
        i < 8,
        method_limb(z@, i as int) <= u32::MAX,
    ensures
        r == method_limb(z@, i as int) as u32,
{
    column_value(z, COL_METHOD_HASH_VALUE + i) as u32
}

fn method_of_row(z: &Vec<u64>) -> (method: MethodHash)
    requires
        forall|i: int| 0 <= i < 8 ==> #[trigger] method_limb(z@, i) <= u32::MAX,
    ensures
        method == row_method(z@),
{
    proof {
        assert(method_limb(z@, 0) <= u32::MAX);
    }
    MethodHash(
        [
            limb_of(z, 0),
            limb_of(z, 1),
            limb_of(z, 2),
            limb_of(z, 3),
            limb_of(z, 4),
            limb_of(z, 5),
            limb_of(z, 6),
            limb_of(z, 7),
        ],
    )
}

/// Add a method to the last of some inputs or outputs.
fn push_method(seen: &mut Vec<Seen>, method: MethodHash) -> (ok: bool)
    ensures
        ok == (old(seen)@.len() > 0),
        !ok ==> final(seen)@ == old(seen)@,
        ok ==> {
            let last = old(seen)@.last();
            &&& final(seen)@.len() == old(seen)@.len()
            &&& forall|i: int|
                0 <= i < old(seen)@.len() - 1 ==> #[trigger] final(seen)@[i] == old(seen)@[i]
            &&& final(seen)@.last().utxo == last.utxo
            &&& final(seen)@.last().storage == last.storage
            &&& final(seen)@.last().methods@ == last.methods@.push(method)
        },
{
    match seen.pop() {
        None => false,
        Some(last) => {
            let mut methods = last.methods;
            methods.push(method);
            seen.push(Seen { utxo: last.utxo, storage: last.storage, methods });
            true
        },
    }
}

/// Whether a row starts a transaction.
fn is_start(z: &Vec<u64>) -> (r: bool)
    ensures
        r == starts_transaction(z@),
{
    column_value(z, COL_TX_PHASE_BEFORE) == 0 && column_value(z, COL_LAST_INPUT_HAS_ABI_BEFORE) == 1
        && column_value(z, COL_OUTPUT_CURSOR_BEFORE) == 0 && column_value(
        z,
        COL_ABI_READ_REMAINING_BEFORE,
    ) == 0 && column_value(z, COL_ABI_READ_ORDINAL_BEFORE) == 0 && column_value(z, COL_CURR_BEFORE)
        == 2 && column_value(z, COL_CURR_PHASE_BEFORE) == 0 && column_value(z, COL_CALL_SP_BEFORE)
        == 1 && column_value(z, COL_NEXT_UTXO_ID_BEFORE) == 0 && column_value(
        z,
        COL_ENABLED_METHOD_LOG_LEN_BEFORE,
    ) == 0 && column_value(z, COL_PENDING_CTOR_PRESENT_BEFORE) == 0 && column_value(
        z,
        COL_PENDING_CTOR_HOLDER_BEFORE,
    ) == 0 && column_value(z, COL_PENDING_CTOR_HANDLE_BEFORE) == 0
}

fn same_storage(a: &[u64; 4], b: &[u64; 4]) -> (same: bool)
    ensures
        same == (*a == *b),
{
    let same = a[0] == b[0] && a[1] == b[1] && a[2] == b[2] && a[3] == b[3];
    assert(same ==> *a =~= *b);
    same
}

fn same_methods(a: &Vec<MethodHash>, b: &Vec<MethodHash>) -> (same: bool)
    ensures
        same == (a@ == b@),
{
    if a.len() != b.len() {
        return false;
    }
    let mut i: usize = 0;
    while i < a.len()
        invariant
            i <= a@.len(),
            a@.len() == b@.len(),
            forall|j: int| 0 <= j < i ==> #[trigger] a@[j] == b@[j],
        decreases a@.len() - i,
    {
        if !same_method(&a[i], &b[i]) {
            return false;
        }
        i = i + 1;
    }
    assert(a@ =~= b@);
    true
}

fn same_inputs(seen: &Vec<Seen>, stated: &Vec<InputUtxo>, Ghost(goal): Ghost<Seq<LoadedInput>>) -> (
same: bool)
    requires
        goal.len() == stated@.len(),
        forall|i: int|
            0 <= i < goal.len() ==> (#[trigger] goal[i]).storage == stated@[i].storage.0
                && goal[i].methods == stated@[i].methods@,
    ensures
        same == (seen_inputs(seen@) == goal),
{
    if seen.len() != stated.len() {
        return false;
    }
    let mut i: usize = 0;
    while i < seen.len()
        invariant
            i <= seen@.len(),
            seen@.len() == stated@.len() == goal.len(),
            forall|i: int|
                0 <= i < goal.len() ==> (#[trigger] goal[i]).storage == stated@[i].storage.0
                    && goal[i].methods == stated@[i].methods@,
            forall|j: int| 0 <= j < i ==> seen_inputs(seen@)[j] == #[trigger] goal[j],
        decreases seen@.len() - i,
    {
        assert(seen_inputs(seen@)[i as int].storage == seen@[i as int].storage);
        assert(seen_inputs(seen@)[i as int].methods == seen@[i as int].methods@);
        assert(goal[i as int].storage == stated@[i as int].storage.0);
        if !same_storage(&seen[i].storage, &stated[i].storage.0) || !same_methods(
            &seen[i].methods,
            &stated[i].methods,
        ) {
            return false;
        }
        assert(seen_inputs(seen@)[i as int] =~= goal[i as int]);
        i = i + 1;
    }
    assert(seen_inputs(seen@) =~= goal);
    true
}

fn same_outputs(
    seen: &Vec<Seen>,
    stated: &Vec<OutputUtxo>,
    Ghost(goal): Ghost<Seq<ExportedOutput>>,
) -> (same: bool)
    requires
        goal.len() == stated@.len(),
        forall|i: int|
            0 <= i < goal.len() ==> (#[trigger] goal[i]).storage == stated@[i].storage.0
                && goal[i].methods == stated@[i].methods@ && goal[i].utxo == stated@[i].utxo,
    ensures
        same == (seen_outputs(seen@) == goal),
{
    if seen.len() != stated.len() {
        return false;
    }
    let mut i: usize = 0;
    while i < seen.len()
        invariant
            i <= seen@.len(),
            seen@.len() == stated@.len() == goal.len(),
            forall|i: int|
                0 <= i < goal.len() ==> (#[trigger] goal[i]).storage == stated@[i].storage.0
                    && goal[i].methods == stated@[i].methods@ && goal[i].utxo == stated@[i].utxo,
            forall|j: int| 0 <= j < i ==> seen_outputs(seen@)[j] == #[trigger] goal[j],
        decreases seen@.len() - i,
    {
        assert(seen_outputs(seen@)[i as int].storage == seen@[i as int].storage);
        assert(seen_outputs(seen@)[i as int].methods == seen@[i as int].methods@);
        assert(goal[i as int].storage == stated@[i as int].storage.0);
        if seen[i].utxo != stated[i].utxo as u64 || !same_storage(
            &seen[i].storage,
            &stated[i].storage.0,
        ) || !same_methods(&seen[i].methods, &stated[i].methods) {
            return false;
        }
        assert(seen_outputs(seen@)[i as int] =~= goal[i as int]);
        i = i + 1;
    }
    assert(seen_outputs(seen@) =~= goal);
    true
}

/// A method that comes too early stays too early.
proof fn lemma_unordered(rows: Seq<Seq<u64>>, m: int, n: int)
    requires
        0 <= m <= n,
        !boundary_of(rows, m).ordered,
    ensures
        !boundary_of(rows, n).ordered,
    decreases n,
{
    if m < n {
        lemma_unordered(rows, m, n - 1);
    }
}

/// Add what a row loads and exports. Fails where a method comes too early.
fn add_row(inputs: &mut Vec<Seen>, outputs: &mut Vec<Seen>, z: &Vec<u64>, Ghost(before): Ghost<
    Boundary,
>) -> (ok: bool)
    requires
        before.ordered,
        seen_inputs(old(inputs)@) == before.inputs,
        seen_outputs(old(outputs)@) == before.outputs,
        method_in_range(z@),
    ensures
        ok == before.with_row(z@).ordered,
        ok ==> seen_inputs(final(inputs)@) == before.with_row(z@).inputs,
        ok ==> seen_outputs(final(outputs)@) == before.with_row(z@).outputs,
{
    if is_selected(z, COL_SEL_SET_STORAGE) {
        inputs.push(
            Seen { utxo: 0, storage: root_of(z, COL_ARGUMENT_ROOT), methods: Vec::new() },
        );
    }
    assert(seen_inputs(inputs@) =~= before.load(z@).inputs);
    if is_selected(z, COL_SEL_PRELOAD_METHOD) {
        if !push_method(inputs, method_of_row(z)) {
            return false;
        }
    }
    assert(seen_inputs(inputs@) =~= before.load(z@).preload(z@).inputs);
    if is_selected(z, COL_SEL_GET_STORAGE) {
        outputs.push(
            Seen {
                utxo: column_value(z, COL_OUTPUT_CURSOR_BEFORE),
                storage: root_of(z, COL_RESULT_ROOT),
                methods: Vec::new(),
            },
        );
    }
    assert(seen_outputs(outputs@) =~= before.load(z@).preload(z@).export(z@).outputs);
    if is_selected(z, COL_SEL_READ_ABI) {
        if !push_method(outputs, method_of_row(z)) {
            return false;
        }
    }
    assert(seen_outputs(outputs@) =~= before.with_row(z@).outputs);
    true
}

/// Check that rows are those of a finished transaction with the inputs and outputs of
/// a statement. The rows are read, not the trace that they come from.
pub fn check_statement(rows: &Vec<Vec<u64>>, statement: &TransactionStatement) -> (result: Result<
    (),
    Error,
>)
    requires
        forall|r: int| 0 <= r < rows@.len() ==> method_in_range(#[trigger] rows@[r]@),
    ensures
        result is Ok <==> statement_holds(row_views(rows@), *statement),
        result matches Err(e) ==> e == Error::Unsatisfied(Unsatisfied::TransactionStatement),
{
    let ghost zs = row_views(rows@);
    let count = rows.len();
    if count == 0 {
        return Err(Error::Unsatisfied(Unsatisfied::TransactionStatement));
    }
    assert(zs[0] == rows@[0]@);
    assert(zs.last() == rows@[count - 1]@);
    if !is_start(&rows[0]) || column_value(&rows[count - 1], COL_TX_PHASE_AFTER) != 2 {
        return Err(Error::Unsatisfied(Unsatisfied::TransactionStatement));
    }
    let mut inputs: Vec<Seen> = Vec::new();
    let mut outputs: Vec<Seen> = Vec::new();
    let mut r: usize = 0;
    assert(seen_inputs(inputs@) =~= boundary_of(zs, 0).inputs);
    assert(seen_outputs(outputs@) =~= boundary_of(zs, 0).outputs);
    while r < count
        invariant
            count == rows@.len(),
            zs == row_views(rows@),
            forall|r: int| 0 <= r < rows@.len() ==> method_in_range(#[trigger] rows@[r]@),
            r <= count,
            boundary_of(zs, r as int).ordered,
            seen_inputs(inputs@) == boundary_of(zs, r as int).inputs,
            seen_outputs(outputs@) == boundary_of(zs, r as int).outputs,
        decreases count - r,
    {
        assert(zs[r as int] == rows@[r as int]@);
        if !add_row(&mut inputs, &mut outputs, &rows[r], Ghost(boundary_of(zs, r as int))) {
            proof {
                lemma_unordered(zs, r + 1, count as int);
            }
            return Err(Error::Unsatisfied(Unsatisfied::TransactionStatement));
        }
        r = r + 1;
    }
    if !same_inputs(&inputs, &statement.inputs, Ghost(stated_inputs(*statement))) || !same_outputs(
        &outputs,
        &statement.outputs,
        Ghost(stated_outputs(*statement)),
    ) {
        return Err(Error::Unsatisfied(Unsatisfied::TransactionStatement));
    }
    Ok(())
}

} // verus!
