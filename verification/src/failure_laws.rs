//! What the error of a failed check names: the first thing that fails, and where.

use vstd::prelude::*;

use crate::acceptance::lemma_terminal;
use crate::batch::{
    batch_count, batch_links, batch_memories, batch_rows, carries, check_outcome, constraint_count,
    constraint_error, continuity_failure, law_check_is_exact, lemma_slot_of, length_error,
    packed_origins, packed_rows, real_steps, relation_failure, single_constraints, slot_of,
    valid_batch_size,
};
use crate::error::{CcsError, ContinuityCheckError, Error, Unsatisfied};
use crate::field::residue;
use crate::ivc_state::{ContinuityLink, TxPhase, LINK_COUNT};
use crate::layout::ROW_WIDTH;
use crate::legality::lemma_covered;
use crate::memory::{
    after_ports, after_rows, initial_stores, memory_consistent, memory_failure, ports_failure,
    row_agrees, row_failure, stores_before, table_words, value_of, MemoryCheckError, MemoryModel,
    Store,
};
use crate::method_table::methods_of;
use crate::opcode::Opcode;
use crate::relation::{first_failure, lemma_first_failure, satisfied};
use crate::step::replay;
use crate::trace::{Step, Trace, TransactionStatement};
use crate::verify::trace_outcome;

verus! {

/// Whether a batch has the columns of the relation and satisfies it.
pub open spec fn batch_satisfied(
    size: usize,
    z: Seq<u64>,
    h: spec_fn([u64; 4], [u64; 8]) -> [u64; 4],
) -> bool {
    z.len() == ROW_WIDTH * size && satisfied(batch_rows(size as int), z, h)
}

/// Whether equation `row` of the relation is the first that batch `b` fails, and `b` is
/// the first batch that fails any.
pub open spec fn first_failed_equation(
    size: usize,
    rows: Seq<Seq<u64>>,
    h: spec_fn([u64; 4], [u64; 8]) -> [u64; 4],
    b: int,
    row: int,
) -> bool {
    &&& 0 <= b < rows.len()
    &&& rows[b].len() == ROW_WIDTH * size
    &&& 0 <= row < batch_rows(size as int).len()
    &&& !batch_rows(size as int)[row].holds(rows[b], h)
    &&& forall|j: int|
        0 <= j < row ==> (#[trigger] batch_rows(size as int)[j]).holds(rows[b], h)
    &&& forall|c: int| 0 <= c < b ==> batch_satisfied(size, #[trigger] rows[c], h)
}

/// Whether batch `b` has another number of columns than the relation, and every batch
/// before it satisfies the relation.
pub open spec fn first_of_wrong_length(
    size: usize,
    rows: Seq<Seq<u64>>,
    h: spec_fn([u64; 4], [u64; 8]) -> [u64; 4],
    b: int,
) -> bool {
    &&& 0 <= b < rows.len()
    &&& rows[b].len() != ROW_WIDTH * size
    &&& forall|c: int| 0 <= c < b ==> batch_satisfied(size, #[trigger] rows[c], h)
}

/// Whether an equation of a batch belongs to a slot: one of the relation of a row to the
/// slot whose copy of it holds the equation, and one between two slots to the later.
pub open spec fn belongs_to(size: int, row: int, slot: int) -> bool {
    let n = single_constraints();
    &&& 0 <= slot < size
    &&& row < size * n ==> slot * n <= row < (slot + 1) * n
    &&& row >= size * n ==> size * n + (slot - 1) * LINK_COUNT <= row < size * n + slot * LINK_COUNT
}

/// Every equation belongs to one slot.
proof fn lemma_belongs(size: int, row: int)
    requires
        size > 0,
        0 <= row < constraint_count(size),
    ensures
        belongs_to(size, row, slot_of(size, row)),
{
    let n = single_constraints();
    let slot = slot_of(size, row);
    lemma_slot_of(size, row);
    if row < size * n {
        vstd::arithmetic::div_mod::lemma_fundamental_div_mod(row, n);
        vstd::arithmetic::div_mod::lemma_mod_bound(row, n);
        assert(slot * n <= row < (slot + 1) * n) by (nonlinear_arith)
            requires
                row == n * slot + row % n,
                0 <= row % n < n,
        ;
    }
}

/// What a failure of the relation from batch `b` on names.
proof fn lemma_relation_names(
    size: usize,
    rows: Seq<Seq<u64>>,
    origins: Seq<Option<usize>>,
    h: spec_fn([u64; 4], [u64; 8]) -> [u64; 4],
    b: int,
)
    requires
        valid_batch_size(size),
        0 <= b <= rows.len(),
        forall|c: int| 0 <= c < b ==> batch_satisfied(size, #[trigger] rows[c], h),
    ensures
        relation_failure(size, rows, origins, h, b) is None <==> forall|c: int|
            0 <= c < rows.len() ==> batch_satisfied(size, #[trigger] rows[c], h),
        relation_failure(size, rows, origins, h, b) matches Some(Error::Unsatisfied(_))
            ==> exists|c: int, row: usize| #[trigger]
            first_failed_equation(size, rows, h, c, row as int) && relation_failure(
                size,
                rows,
                origins,
                h,
                b,
            ) == Some(constraint_error(size, origins, c, row)),
        relation_failure(size, rows, origins, h, b) is Some && !(relation_failure(
            size,
            rows,
            origins,
            h,
            b,
        ) matches Some(Error::Unsatisfied(_))) ==> exists|c: int| #[trigger]
            first_of_wrong_length(size, rows, h, c) && relation_failure(size, rows, origins, h, b)
                == Some(length_error(size, origins, c, rows[c].len() as int)),
    decreases rows.len() - b,
{
    if b < rows.len() {
        let all = batch_rows(size as int);
        if rows[b].len() == ROW_WIDTH * size {
            lemma_first_failure(all, rows[b], h, 0);
            match first_failure(all, rows[b], h, 0) {
                Some(row) => {
                    assert(first_failed_equation(size, rows, h, b, row as int));
                    assert(!batch_satisfied(size, rows[b], h)) by {
                        assert(!all[row as int].holds(rows[b], h));
                    }
                },
                None => {
                    assert(batch_satisfied(size, rows[b], h));
                    lemma_relation_names(size, rows, origins, h, b + 1);
                },
            }
        } else {
            assert(!batch_satisfied(size, rows[b], h));
            assert(first_of_wrong_length(size, rows, h, b));
        }
    }
}

/// Whether an error is the one of the first failed equation: it has the number and the
/// name of the equation, and the step in the slot that the equation belongs to, or the
/// batch and the slot where that slot is padding.
pub open spec fn names_equation(
    size: usize,
    rows: Seq<Seq<u64>>,
    origins: Seq<Option<usize>>,
    h: spec_fn([u64; 4], [u64; 8]) -> [u64; 4],
    error: Unsatisfied,
) -> bool {
    match error {
        Unsatisfied::Constraint { step, row, constraint } => exists|b: int, slot: int|
            #![trigger first_failed_equation(size, rows, h, b, row as int), belongs_to(size as int, row as int, slot)]
            {
                &&& first_failed_equation(size, rows, h, b, row as int)
                &&& belongs_to(size as int, row as int, slot)
                &&& origins[b * size + slot] == Some(step)
                &&& constraint == batch_rows(size as int)[row as int].label_of()
            },
        Unsatisfied::PaddingConstraint { batch, slot, batch_size, row, constraint } => {
            &&& first_failed_equation(size, rows, h, batch as int, row as int)
            &&& belongs_to(size as int, row as int, slot as int)
            &&& origins[batch * size + slot] is None
            &&& batch_size == size
            &&& constraint == batch_rows(size as int)[row as int].label_of()
        },
        _ => false,
    }
}

proof fn lemma_names_equation(
    size: usize,
    rows: Seq<Seq<u64>>,
    origins: Seq<Option<usize>>,
    h: spec_fn([u64; 4], [u64; 8]) -> [u64; 4],
    b: int,
    row: usize,
)
    requires
        valid_batch_size(size),
        rows.len() <= usize::MAX,
        first_failed_equation(size, rows, h, b, row as int),
    ensures
        constraint_error(size, origins, b, row) matches Error::Unsatisfied(error)
            && names_equation(size, rows, origins, h, error),
{
    let slot = slot_of(size as int, row as int);
    lemma_belongs(size as int, row as int);
    assert(belongs_to(size as int, row as int, slot));
    assert((b as usize) as int == b);
    assert((slot as usize) as int == slot);
    let error = constraint_error(size, origins, b, row)->Unsatisfied_0;
    match origins[b * size + slot] {
        Some(step) => {
            let at = error->Constraint_row as int;
            assert(error->Constraint_step == step && at == row);
            assert(error->Constraint_constraint == batch_rows(size as int)[at].label_of());
            assert(first_failed_equation(size, rows, h, b, at));
            assert(belongs_to(size as int, at, slot));
            assert(names_equation(size, rows, origins, h, error));
        },
        None => {
            assert(error->batch as int == b);
            assert(error->slot as int == slot);
            assert(names_equation(size, rows, origins, h, error));
        },
    }
}

/// A failed equation is named where it first fails, before anything else.
pub proof fn law_the_first_failed_equation_is_named(
    size: usize,
    rows: Seq<Seq<u64>>,
    origins: Seq<Option<usize>>,
    words: Seq<u64>,
    h: spec_fn([u64; 4], [u64; 8]) -> [u64; 4],
)
    requires
        valid_batch_size(size),
        rows.len() <= usize::MAX,
    ensures
        (exists|b: int, row: int| #[trigger] first_failed_equation(size, rows, h, b, row)) ==> (
        check_outcome(size, rows, origins, words, h) matches Err(Error::Unsatisfied(error))
            && names_equation(size, rows, origins, h, error)),
        check_outcome(size, rows, origins, words, h) matches Err(Error::Unsatisfied(error)) && (
        error is Constraint || error is PaddingConstraint) ==> names_equation(
            size,
            rows,
            origins,
            h,
            check_outcome(size, rows, origins, words, h)->Err_0->Unsatisfied_0,
        ),
{
    lemma_relation_names(size, rows, origins, h, 0);
    if let Some(Error::Unsatisfied(_)) = relation_failure(size, rows, origins, h, 0) {
        let (b, row) = choose|b: int, row: usize| #[trigger]
            first_failed_equation(size, rows, h, b, row as int) && relation_failure(
                size,
                rows,
                origins,
                h,
                0,
            ) == Some(constraint_error(size, origins, b, row));
        lemma_names_equation(size, rows, origins, h, b, row);
    } else {
        assert forall|b: int, row: int| !#[trigger] first_failed_equation(
            size,
            rows,
            h,
            b,
            row,
        ) by {
            if first_failed_equation(size, rows, h, b, row) {
                lemma_not_satisfied(size, rows[b], h, row);
            }
        }
    }
}

proof fn lemma_not_satisfied(
    size: usize,
    z: Seq<u64>,
    h: spec_fn([u64; 4], [u64; 8]) -> [u64; 4],
    row: int,
)
    requires
        0 <= row < batch_rows(size as int).len(),
        !batch_rows(size as int)[row].holds(z, h),
    ensures
        !batch_satisfied(size, z, h),
{
}

/// An assignment with a wrong number of columns is named: by its step where a batch is a
/// step, and by its batch where it is not, with the two numbers of columns.
pub proof fn law_the_first_wrong_length_is_named(
    size: usize,
    rows: Seq<Seq<u64>>,
    origins: Seq<Option<usize>>,
    words: Seq<u64>,
    h: spec_fn([u64; 4], [u64; 8]) -> [u64; 4],
)
    requires
        valid_batch_size(size),
        rows.len() <= usize::MAX,
        forall|b: int| 0 <= b < rows.len() ==> (#[trigger] rows[b]).len() <= usize::MAX,
    ensures
        check_outcome(size, rows, origins, words, h) matches Err(
            Error::CcsCheck { step, source: CcsError::LengthMismatch { expected, actual } },
        ) ==> size == 1 && expected == ROW_WIDTH && exists|b: int| #[trigger]
            first_of_wrong_length(size, rows, h, b) && rows[b].len() == actual && origins[b]
                == Some(step),
        check_outcome(size, rows, origins, words, h) matches Err(
            Error::BatchedCcsCheck {
                batch,
                batch_size,
                source: CcsError::LengthMismatch { expected, actual },
            },
        ) ==> batch_size == size && expected == ROW_WIDTH * size && first_of_wrong_length(
            size,
            rows,
            h,
            batch as int,
        ) && rows[batch as int].len() == actual && (size > 1 || origins[batch as int] is None),
        (exists|b: int| #[trigger] first_of_wrong_length(size, rows, h, b)) ==> (check_outcome(
            size,
            rows,
            origins,
            words,
            h,
        ) matches Err(error) && !(error is Unsatisfied)),
{
    lemma_relation_names(size, rows, origins, h, 0);
    if relation_failure(size, rows, origins, h, 0) is Some && !(relation_failure(
        size,
        rows,
        origins,
        h,
        0,
    ) matches Some(Error::Unsatisfied(_))) {
        let b = choose|b: int| #[trigger]
            first_of_wrong_length(size, rows, h, b) && relation_failure(size, rows, origins, h, 0)
                == Some(length_error(size, origins, b, rows[b].len() as int));
        assert(first_of_wrong_length(size, rows, h, b));
        assert((b as usize) as int == b);
        assert(rows[b].len() <= usize::MAX);
    } else {
        assert forall|b: int| !#[trigger] first_of_wrong_length(size, rows, h, b) by {
            if first_of_wrong_length(size, rows, h, b) {
                assert(!batch_satisfied(size, rows[b], h));
                let (c, row) = choose|c: int, row: usize| #[trigger]
                    first_failed_equation(size, rows, h, c, row as int);
                if relation_failure(size, rows, origins, h, 0) is Some {
                    assert(first_failed_equation(size, rows, h, c, row as int));
                    lemma_not_satisfied(size, rows[c], h, row as int);
                }
            }
        }
    }
}

/// Batches that pass the check hand on what they carry: in every link the column of a
/// batch has the value that the next batch finds in its own.
pub proof fn law_checked_batches_hand_on_state(
    size: usize,
    rows: Seq<Seq<u64>>,
    origins: Seq<Option<usize>>,
    words: Seq<u64>,
    h: spec_fn([u64; 4], [u64; 8]) -> [u64; 4],
    b: int,
    i: int,
)
    requires
        valid_batch_size(size),
        check_outcome(size, rows, origins, words, h) is Ok,
        0 <= b && b + 1 < rows.len(),
        0 <= i < batch_links(size as int).len(),
    ensures
        value_of(rows[b], batch_links(size as int)[i].previous_step_column) == value_of(
            rows[b + 1],
            batch_links(size as int)[i].next_step_column,
        ),
        batch_satisfied(size, rows[b], h),
{
    law_check_is_exact(size, rows, origins, words, h);
    assert(carries(batch_links(size as int)[i], rows[b], rows[b + 1]));
}

/// Whether an access is the first that memory contradicts: port `p` of memory `m` in row
/// `r`, where rows come first, then memories, then ports.
pub open spec fn first_contradiction(
    layout: Seq<MemoryModel>,
    rows: Seq<Seq<u64>>,
    initial: Seq<Store>,
    r: int,
    m: int,
    p: int,
) -> bool {
    let before = after_rows(layout[m].ports, rows, initial[m], r);
    &&& 0 <= r < rows.len()
    &&& 0 <= m < layout.len()
    &&& 0 <= p < layout[m].ports.len()
    &&& !port_agrees(layout[m], rows[r], before, p)
    &&& forall|q: int| 0 <= q < p ==> #[trigger] port_agrees(layout[m], rows[r], before, q)
    &&& forall|i: int| 0 <= i < m ==> #[trigger] row_agrees(layout, rows, initial, r, i)
    &&& forall|s: int, i: int|
        0 <= s < r && 0 <= i < layout.len() ==> #[trigger] row_agrees(layout, rows, initial, s, i)
}

/// Whether memory agrees with the access of port `p` of a row.
pub open spec fn port_agrees(memory: MemoryModel, z: Seq<u64>, store: Store, p: int) -> bool {
    memory.ports[p].agrees(z, after_ports(memory.ports, z, store, p))
}

/// Whether port `q` is the first from `p` on that memory contradicts.
spec fn stops_at(memory: MemoryModel, z: Seq<u64>, store: Store, p: int, q: int) -> bool {
    &&& p <= q < memory.ports.len()
    &&& !port_agrees(memory, z, store, q)
    &&& forall|o: int| p <= o < q ==> #[trigger] port_agrees(memory, z, store, o)
}

/// The error of port `q` of a row.
spec fn port_error(memory: MemoryModel, z: Seq<u64>, store: Store, r: int, q: int) ->
    MemoryCheckError {
    memory.ports[q].error(z, after_ports(memory.ports, z, store, q), memory.id, r, q)
}

proof fn lemma_ports_name(memory: MemoryModel, z: Seq<u64>, store: Store, r: int, p: int) -> (q:
    int)
    requires
        0 <= p <= memory.ports.len(),
    ensures
        ports_failure(memory, z, store, r, p) is None ==> (forall|o: int|
            p <= o < memory.ports.len() ==> #[trigger] port_agrees(memory, z, store, o)),
        ports_failure(memory, z, store, r, p) matches Some(error) ==> stops_at(
            memory,
            z,
            store,
            p,
            q,
        ) && error == port_error(memory, z, store, r, q),
    decreases memory.ports.len() - p,
{
    if p < memory.ports.len() && port_agrees(memory, z, store, p) {
        lemma_ports_name(memory, z, store, r, p + 1)
    } else {
        p
    }
}

/// Whether an error is the one of the first access that memory contradicts.
pub open spec fn names_contradiction(
    layout: Seq<MemoryModel>,
    rows: Seq<Seq<u64>>,
    initial: Seq<Store>,
    error: MemoryCheckError,
) -> bool {
    exists|r: int, m: int, p: int| #[trigger]
        first_contradiction(layout, rows, initial, r, m, p) && error == layout[m].ports[p].error(
            rows[r],
            after_ports(
                layout[m].ports,
                rows[r],
                after_rows(layout[m].ports, rows, initial[m], r),
                p,
            ),
            layout[m].id,
            r,
            p,
        )
}

proof fn lemma_row_names(
    layout: Seq<MemoryModel>,
    rows: Seq<Seq<u64>>,
    initial: Seq<Store>,
    r: int,
    m: int,
)
    requires
        0 <= r < rows.len(),
        0 <= m <= layout.len(),
        forall|i: int| 0 <= i < m ==> #[trigger] row_agrees(layout, rows, initial, r, i),
        forall|s: int, i: int|
            0 <= s < r && 0 <= i < layout.len() ==> #[trigger] row_agrees(
                layout,
                rows,
                initial,
                s,
                i,
            ),
    ensures
        row_failure(layout, rows[r], stores_before(layout, rows, initial, r), r, m) is None
            ==> forall|i: int|
            0 <= i < layout.len() ==> #[trigger] row_agrees(layout, rows, initial, r, i),
        row_failure(layout, rows[r], stores_before(layout, rows, initial, r), r, m) matches Some(
            error,
        ) ==> names_contradiction(layout, rows, initial, error),
    decreases layout.len() - m,
{
    if m < layout.len() {
        let memory = layout[m];
        let z = rows[r];
        let store = after_rows(memory.ports, rows, initial[m], r);
        assert(stores_before(layout, rows, initial, r)[m] == store);
        let q = lemma_ports_name(memory, z, store, r, 0);
        match ports_failure(memory, z, store, r, 0) {
            Some(error) => {
                assert(first_contradiction(layout, rows, initial, r, m, q));
            },
            None => {
                assert forall|p: int| 0 <= p < memory.ports.len() implies (
                #[trigger] memory.ports[p]).agrees(z, after_ports(memory.ports, z, store, p)) by {
                    assert(port_agrees(memory, z, store, p));
                }
                assert(row_agrees(layout, rows, initial, r, m));
                lemma_row_names(layout, rows, initial, r, m + 1);
            },
        }
    }
}

proof fn lemma_memory_names(
    layout: Seq<MemoryModel>,
    rows: Seq<Seq<u64>>,
    initial: Seq<Store>,
    r: int,
)
    requires
        0 <= r <= rows.len(),
        forall|s: int, i: int|
            0 <= s < r && 0 <= i < layout.len() ==> #[trigger] row_agrees(
                layout,
                rows,
                initial,
                s,
                i,
            ),
    ensures
        memory_failure(layout, rows, initial, r) is None ==> memory_consistent(
            layout,
            rows,
            initial,
        ),
        memory_failure(layout, rows, initial, r) matches Some(error) ==> names_contradiction(
            layout,
            rows,
            initial,
            error,
        ),
    decreases rows.len() - r,
{
    if r < rows.len() {
        lemma_row_names(layout, rows, initial, r, 0);
        if row_failure(layout, rows[r], stores_before(layout, rows, initial, r), r, 0) is None {
            lemma_memory_names(layout, rows, initial, r + 1);
        }
    }
}

/// Whether link `i` of boundary `b` is the first that does not carry its column.
pub open spec fn first_break(
    links: Seq<ContinuityLink>,
    rows: Seq<Seq<u64>>,
    b: int,
    i: int,
) -> bool {
    &&& 0 <= b && b + 1 < rows.len()
    &&& 0 <= i < links.len()
    &&& value_of(rows[b], links[i].previous_step_column) != value_of(
        rows[b + 1],
        links[i].next_step_column,
    )
    &&& forall|c: int, j: int|
        0 <= c && (c < b || (c == b && j < i)) && 0 <= j < links.len() ==> #[trigger] carries(
            links[j],
            rows[c],
            rows[c + 1],
        )
}

/// Whether an error is the one of the first link that does not carry its column.
pub open spec fn names_break(
    links: Seq<ContinuityLink>,
    rows: Seq<Seq<u64>>,
    error: ContinuityCheckError,
) -> bool {
    let ContinuityCheckError::Mismatch {
        boundary,
        group_name,
        previous_step_column,
        next_step_column,
        previous,
        next,
    } = error;
    exists|i: int| #[trigger]
        first_break(links, rows, boundary as int, i) && links[i].group == group_name
            && links[i].previous_step_column == previous_step_column && links[i].next_step_column
            == next_step_column && previous == value_of(rows[boundary as int], previous_step_column) && next == value_of(
            rows[boundary + 1],
            next_step_column,
        )
}

proof fn lemma_continuity_names(
    links: Seq<ContinuityLink>,
    rows: Seq<Seq<u64>>,
    b: int,
    i: int,
)
    requires
        0 <= b,
        0 <= i <= links.len(),
        rows.len() <= usize::MAX,
        forall|c: int, j: int|
            0 <= c && (c < b || (c == b && j < i)) && c + 1 < rows.len() && 0 <= j < links.len()
                ==> #[trigger] carries(links[j], rows[c], rows[c + 1]),
    ensures
        continuity_failure(links, rows, b, i) matches Some(error) ==> names_break(
            links,
            rows,
            error,
        ),
    decreases rows.len() - b, links.len() - i,
{
    if b + 1 < rows.len() {
        if i >= links.len() {
            lemma_continuity_names(links, rows, b + 1, 0);
        } else if carries(links[i], rows[b], rows[b + 1]) {
            lemma_continuity_names(links, rows, b, i + 1);
        } else {
            assert((b as usize) as int == b);
            assert(first_break(links, rows, (b as usize) as int, i));
            let error = continuity_failure(links, rows, b, i)->0;
            assert(error->boundary == b as usize);
            assert(error->group_name == links[i].group);
            assert(error->previous == value_of(rows[b], links[i].previous_step_column));
            assert(error->next == value_of(rows[b + 1], links[i].next_step_column));
            assert(names_break(links, rows, error));
        }
    }
}

/// A contradiction of memory is named where it first occurs, and only where every batch
/// satisfies the relation: the error has the row, the memory and the port of the first
/// access that memory contradicts. A change of carried state is named where it first
/// occurs, and only where memory agrees with every access: the error has the boundary, the
/// columns and the two values of the first link that does not carry.
pub proof fn law_the_first_contradiction_is_named(
    size: usize,
    rows: Seq<Seq<u64>>,
    origins: Seq<Option<usize>>,
    words: Seq<u64>,
    h: spec_fn([u64; 4], [u64; 8]) -> [u64; 4],
)
    requires
        valid_batch_size(size),
        rows.len() <= usize::MAX,
    ensures
        ({
            let layout = batch_memories(size as int);
            let initial = initial_stores(layout, words);
            let links = batch_links(size as int);
            let outcome = check_outcome(size, rows, origins, words, h);
            let related = forall|c: int|
                0 <= c < rows.len() ==> batch_satisfied(size, #[trigger] rows[c], h);
            &&& outcome matches Err(Error::Unsatisfied(Unsatisfied::Memory(source))) ==> related
                && names_contradiction(layout, rows, initial, source) && size == 1
            &&& outcome matches Err(
                Error::Unsatisfied(Unsatisfied::BatchedMemory { batch_size, source }),
            ) ==> related && names_contradiction(layout, rows, initial, source) && batch_size
                == size
            &&& outcome matches Err(Error::Unsatisfied(Unsatisfied::Continuity(source)))
                ==> related && memory_consistent(layout, rows, initial) && names_break(
                links,
                rows,
                source,
            ) && size == 1
            &&& outcome matches Err(
                Error::Unsatisfied(Unsatisfied::BatchedContinuity { batch_size, source }),
            ) ==> related && memory_consistent(layout, rows, initial) && names_break(
                links,
                rows,
                source,
            ) && batch_size == size
        }),
{
    let layout = batch_memories(size as int);
    let initial = initial_stores(layout, words);
    let links = batch_links(size as int);
    lemma_relation_names(size, rows, origins, h, 0);
    lemma_memory_names(layout, rows, initial, 0);
    lemma_continuity_names(links, rows, 0, 0);
}

/// There are at most as many batches as steps.
proof fn lemma_batch_count(n: int, size: int)
    requires
        n >= 0,
        size > 0,
    ensures
        0 <= batch_count(n, size) <= n,
{
    let count = batch_count(n, size);
    lemma_covered(n, size);
    assert(0 <= count <= n) by (nonlinear_arith)
        requires
            0 <= n <= count * size < n + size,
            size > 0,
    ;
}

/// No step of a replay is padding, so that as many steps are real as there are.
proof fn lemma_all_real(
    steps: Seq<Step>,
    phase: TxPhase,
    h: spec_fn([u64; 4], [u64; 8]) -> [u64; 4],
    n: int,
)
    requires
        0 <= n <= steps.len(),
    ensures
        replay(steps, phase, h).len() == steps.len(),
        real_steps(replay(steps, phase, h), n) == n,
        n < steps.len() ==> replay(steps, phase, h)[n].opcode != Opcode::Padding,
    decreases n,
{
    if n > 0 {
        lemma_all_real(steps, phase, h, n - 1);
    }
    if n < steps.len() {
        assert(replay(steps, phase, h)[n].opcode == Opcode::of_step(steps[n]));
    }
}

/// The slots of the batches of a trace hold its steps in order, and padding behind them.
pub proof fn law_slots_hold_the_steps_in_order(
    steps: Seq<Step>,
    phase: TxPhase,
    h: spec_fn([u64; 4], [u64; 8]) -> [u64; 4],
    size: usize,
    index: int,
)
    requires
        steps.len() <= usize::MAX,
        0 <= index < packed_origins(replay(steps, phase, h), size as int).len(),
    ensures
        packed_origins(replay(steps, phase, h), size as int)[index] == (if index < steps.len() {
            Some(index as usize)
        } else {
            None
        }),
{
    lemma_all_real(
        steps,
        phase,
        h,
        if index < steps.len() {
            index
        } else {
            0
        },
    );
}

/// A failed equation of a trace names the step in whose slot it first fails: of batches
/// of `size` slots, the step number is that of the slot, counted through all batches.
pub proof fn law_the_failing_step_is_named(
    trace: Trace,
    phase: TxPhase,
    size: usize,
    expected: Option<Map<u32, [u64; 4]>>,
    statement: Option<TransactionStatement>,
    h: spec_fn([u64; 4], [u64; 8]) -> [u64; 4],
    step: usize,
    row: usize,
    constraint: &'static str,
)
    requires
        trace.0@.len() <= u32::MAX,
        trace_outcome(trace, phase, size, expected, statement, h) == Err::<(), Error>(
            Error::Unsatisfied(Unsatisfied::Constraint { step, row, constraint }),
        ),
    ensures
        step < trace.0@.len(),
        exists|b: int, slot: int|
            #![trigger b * size, belongs_to(size as int, row as int, slot)]
            {
                &&& first_failed_equation(
                    size,
                    packed_rows(replay(trace.0@, phase, h), size as int, h),
                    h,
                    b,
                    row as int,
                )
                &&& belongs_to(size as int, row as int, slot)
                &&& step == b * size + slot
            },
        constraint == batch_rows(size as int)[row as int].label_of(),
{
    let steps = replay(trace.0@, phase, h);
    let rows = packed_rows(steps, size as int, h);
    let origins = packed_origins(steps, size as int);
    let words = table_words(methods_of(trace.0@, trace.0@.len() as int));
    let error = Unsatisfied::Constraint { step, row, constraint };
    lemma_all_real(trace.0@, phase, h, 0);
    let count = batch_count(steps.len() as int, size as int);
    assert(rows.len() == count);
    assert(count <= usize::MAX) by {
        lemma_batch_count(steps.len() as int, size as int);
    }
    law_the_first_failed_equation_is_named(size, rows, origins, words, h);
    assert(names_equation(size, rows, origins, h, error));
    let (b, slot) = choose|b: int, slot: int|
        #![trigger first_failed_equation(size, rows, h, b, row as int), belongs_to(size as int, row as int, slot)]
        {
            &&& first_failed_equation(size, rows, h, b, row as int)
            &&& belongs_to(size as int, row as int, slot)
            &&& origins[b * size + slot] == Some(step)
            &&& constraint == batch_rows(size as int)[row as int].label_of()
        };
    let index = b * size + slot;
    assert(0 <= index < count * size) by (nonlinear_arith)
        requires
            0 <= b < count,
            0 <= slot < size,
            index == b * size + slot,
    ;
    law_slots_hold_the_steps_in_order(trace.0@, phase, h, size, index);
}

/// What an execution leaves that has not ended is named: the height of its call stack, or
/// the UTXO that has the turn. Without steps the frame of the first coordinator is left.
pub proof fn law_what_is_left_is_named(
    trace: Trace,
    phase: TxPhase,
    size: usize,
    expected: Option<Map<u32, [u64; 4]>>,
    statement: Option<TransactionStatement>,
    h: spec_fn([u64; 4], [u64; 8]) -> [u64; 4],
)
    requires
        trace.0@.len() <= u32::MAX,
    ensures
        trace_outcome(trace, phase, size, expected, statement, h) matches Err(
            Error::Unsatisfied(Unsatisfied::TerminalCallStackNotEmpty { actual }),
        ) ==> actual != 0 && (if trace.0@.len() == 0 {
            actual == 1
        } else {
            actual == residue(replay(trace.0@, phase, h).last().call_sp_after as int)
        }),
        trace_outcome(trace, phase, size, expected, statement, h) matches Err(
            Error::Unsatisfied(Unsatisfied::TerminalCoroutineNotCoordinator { actual }),
        ) ==> {
            let w = replay(trace.0@, phase, h).last();
            &&& trace.0@.len() > 0
            &&& residue(w.call_sp_after as int) == 0
            &&& w.curr_after is Utxo
            &&& actual == w.curr_after.packed()
        },
        trace_outcome(trace, phase, size, expected, statement, h) is Ok ==> {
            let w = replay(trace.0@, phase, h).last();
            &&& trace.0@.len() > 0
            &&& residue(w.call_sp_after as int) == 0
            &&& w.curr_after is Coord
            &&& statement is None ==> w.tx_after.phase == TxPhase::Running
        },
{
    let steps = replay(trace.0@, phase, h);
    let words = table_words(methods_of(trace.0@, trace.0@.len() as int));
    lemma_all_real(trace.0@, phase, h, 0);
    if valid_batch_size(size) {
        let rows = packed_rows(steps, size as int, h);
        let origins = packed_origins(steps, size as int);
        lemma_kinds_of_check(size, rows, origins, words, h);
        if steps.len() > 0 {
            lemma_terminal(steps, size as int, h);
        } else {
            assert(rows.len() == 0) by {
                lemma_batch_count(0, size as int);
            }
        }
    }
}

/// The check of batches does not name what an execution leaves.
proof fn lemma_kinds_of_check(
    size: usize,
    rows: Seq<Seq<u64>>,
    origins: Seq<Option<usize>>,
    words: Seq<u64>,
    h: spec_fn([u64; 4], [u64; 8]) -> [u64; 4],
)
    requires
        valid_batch_size(size),
    ensures
        check_outcome(size, rows, origins, words, h) matches Err(Error::Unsatisfied(error)) ==> !(
        error is TerminalCallStackNotEmpty) && !(error is TerminalCoroutineNotCoordinator),
{
    lemma_relation_names(size, rows, origins, h, 0);
}

} // verus!
