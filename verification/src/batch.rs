//! Batches of rows.
//!
//! A batch holds a fixed number of rows, its slots, column by column: column `c`
//! of slot `s` is column `c * size + s` of the batch. The constant of slot zero
//! serves every slot; those of the other slots are unused and left at zero.

use vstd::prelude::*;

use crate::bounds::{all_bounded, bounded, lemma_relation_bounded, terms_bounded};
use crate::ccs::{build_relation, relation_rows};
use crate::error::{CcsError, ContinuityCheckError, Error, Unsatisfied};
use crate::ivc_state::{build_ivc_state_continuity_links, carried, link, ContinuityLink, LINK_COUNT};
use crate::layout::{COL_ONE, ROW_WIDTH};
use crate::compression::{compression_of, is_compression};
use crate::memory::{
    build_memory_layout, check_memory_rows, column_value, initial_stores, lemma_memory_failure,
    memories, memory_consistent, memory_failure, memory_layout, row_views, value_of, Memory,
    MemoryModel, MemoryPort, MemoryPortActivation, MemoryPortKind, MemoryPreload,
};
use crate::opcode::Opcode;
use crate::relation::{
    check_rowwise, equations, first_failure, lemma_first_failure, linear, satisfied, terms2,
    Builder, Constraint, Equation, EventCommitment, Term,
};
use crate::step::Wit;
use crate::witness::{build_witness_vector, witness_row};
use vstd::arithmetic::div_mod::lemma_fundamental_div_mod_converse;
use vstd::arithmetic::mul::{lemma_mul_inequality, lemma_mul_is_distributive_add_other_way};

verus! {

/// Column of a batch that holds a column of one of its slots.
pub open spec fn slot_column(size: int, slot: int, column: int) -> int {
    column * size + slot
}

/// Column of a batch that an equation of a slot refers to: all refer to the
/// constant of slot zero.
pub open spec fn mapped(size: int, slot: int, column: usize) -> usize {
    if column == COL_ONE {
        COL_ONE
    } else {
        slot_column(size, slot, column as int) as usize
    }
}

pub open spec fn mapped_terms(size: int, slot: int, terms: Seq<Term>) -> Seq<Term> {
    Seq::new(terms.len(), |k: int| (mapped(size, slot, terms[k].0), terms[k].1))
}

pub open spec fn mapped4(size: int, slot: int, columns: [usize; 4]) -> [usize; 4] {
    [
        mapped(size, slot, columns[0]),
        mapped(size, slot, columns[1]),
        mapped(size, slot, columns[2]),
        mapped(size, slot, columns[3]),
    ]
}

pub open spec fn mapped8(size: int, slot: int, columns: [usize; 8]) -> [usize; 8] {
    [
        mapped(size, slot, columns[0]),
        mapped(size, slot, columns[1]),
        mapped(size, slot, columns[2]),
        mapped(size, slot, columns[3]),
        mapped(size, slot, columns[4]),
        mapped(size, slot, columns[5]),
        mapped(size, slot, columns[6]),
        mapped(size, slot, columns[7]),
    ]
}

/// An equation of a row, as an equation of a slot of a batch.
pub open spec fn mapped_equation(size: int, slot: int, equation: Equation) -> Equation {
    match equation {
        Equation::Product { label, a, b, c } => Equation::Product {
            label,
            a: mapped_terms(size, slot, a),
            b: mapped_terms(size, slot, b),
            c: mapped_terms(size, slot, c),
        },
        Equation::Compression { label, gadget } => Equation::Compression {
            label,
            gadget: EventCommitment {
                previous: mapped4(size, slot, gadget.previous),
                block: mapped8(size, slot, gadget.block),
                output: mapped4(size, slot, gadget.output),
            },
        },
    }
}

/// A carried column of a slot equals that of the next slot.
pub open spec fn link_row(size: int, slot: int, carry: ContinuityLink) -> Equation {
    linear(
        "within-batch continuity",
        seq![
            (slot_column(size, slot, carry.previous_step_column as int) as usize, 1i64),
            (slot_column(size, slot + 1, carry.next_step_column as int) as usize, -1i64),
        ],
    )
}

/// Number of equations of one row.
pub open spec fn single_constraints() -> int {
    relation_rows().len() as int
}

/// Number of equations of a batch.
pub open spec fn constraint_count(size: int) -> int {
    size * single_constraints() + (size - 1) * LINK_COUNT
}

/// Equation `k` of a batch: those of its slots, slot by slot, then the carried
/// columns, boundary by boundary.
pub open spec fn batch_equation(size: int, k: int) -> Equation {
    let slots = size * single_constraints();
    if k < slots {
        mapped_equation(size, k / single_constraints(), relation_rows()[k % single_constraints()])
    } else {
        link_row(
            size,
            (k - slots) / (LINK_COUNT as int),
            carried()[(k - slots) % (LINK_COUNT as int)],
        )
    }
}

/// The relation of a batch.
pub open spec fn batch_rows(size: int) -> Seq<Equation> {
    Seq::new(constraint_count(size) as nat, |k: int| batch_equation(size, k))
}

/// A port of a row, as a port of a slot of a batch.
pub open spec fn mapped_port(size: int, slot: int, port: MemoryPort) -> MemoryPort {
    MemoryPort {
        bank_column: match port.bank_column {
            Some(column) => Some(mapped(size, slot, column)),
            None => None,
        },
        address_column: mapped(size, slot, port.address_column),
        value_column: mapped(size, slot, port.value_column),
        kind: match port.kind {
            MemoryPortKind::Read => MemoryPortKind::Read,
            MemoryPortKind::Write { value_before_column: Some(column) } => MemoryPortKind::Write {
                value_before_column: Some(mapped(size, slot, column)),
            },
            MemoryPortKind::Write { value_before_column: None } => MemoryPortKind::Write {
                value_before_column: None,
            },
        },
        activation: match port.activation {
            MemoryPortActivation::Always => MemoryPortActivation::Always,
            MemoryPortActivation::When(column) => MemoryPortActivation::When(
                mapped(size, slot, column),
            ),
            MemoryPortActivation::Unless(column) => MemoryPortActivation::Unless(
                mapped(size, slot, column),
            ),
        },
    }
}

/// The ports of a batch, slot by slot.
pub open spec fn batch_ports(size: int, ports: Seq<MemoryPort>) -> Seq<MemoryPort> {
    Seq::new(
        (size * ports.len()) as nat,
        |k: int| mapped_port(size, k / (ports.len() as int), ports[k % (ports.len() as int)]),
    )
}

/// A memory of a batch.
pub open spec fn batch_memory(size: int, memory: MemoryModel) -> MemoryModel {
    MemoryModel { id: memory.id, ports: batch_ports(size, memory.ports) }
}

/// The memories of a batch.
pub open spec fn batch_memories(size: int) -> Seq<MemoryModel> {
    Seq::new(memory_layout().len(), |m: int| batch_memory(size, memory_layout()[m]))
}

/// The carried columns from one batch to the next: those of the last slot and those
/// of the first.
pub open spec fn batch_links(size: int) -> Seq<ContinuityLink> {
    Seq::new(
        carried().len(),
        |i: int|
            link(
                carried()[i].group,
                slot_column(size, size - 1, carried()[i].previous_step_column as int) as usize,
                slot_column(size, 0, carried()[i].next_step_column as int) as usize,
            ),
    )
}

/// Whether batches of a size can be built: the size is positive, and the number of
/// columns and of equations fits `usize`. A compression is one equation, over columns that
/// the row has already.
pub open spec fn valid_batch_size(size: usize) -> bool {
    &&& size > 0
    &&& ROW_WIDTH * size <= usize::MAX
    &&& constraint_count(size as int) <= usize::MAX
}

/// The relation, the memories and the carried columns of batches of one size.
#[derive(Debug)]
pub struct Batch {
    pub size: usize,
    pub single_constraints: usize,
    pub relation: Vec<Constraint>,
    pub memory: Vec<Memory>,
    pub continuity: Vec<ContinuityLink>,
}

impl Batch {
    /// Whether the parts belong to batches of the size.
    pub open spec fn wf(&self) -> bool {
        &&& valid_batch_size(self.size)
        &&& self.single_constraints == single_constraints()
        &&& equations(self.relation@) == batch_rows(self.size as int)
        &&& memories(self.memory@) == batch_memories(self.size as int)
        &&& self.continuity@ == batch_links(self.size as int)
    }
}

/// A column of a slot is a column of the batch.
pub proof fn lemma_slot_column(size: int, slot: int, column: int)
    requires
        0 <= slot < size,
        0 <= column < ROW_WIDTH,
    ensures
        0 <= slot_column(size, slot, column) < ROW_WIDTH * size,
        slot_column(size, slot, column) / size == column,
        slot_column(size, slot, column) % size == slot,
{
    lemma_mul_inequality(column + 1, ROW_WIDTH as int, size);
    lemma_mul_is_distributive_add_other_way(size, column, 1);
    assert(0 <= column * size) by (nonlinear_arith)
        requires
            0 <= column,
            0 < size,
    ;
    lemma_fundamental_div_mod_converse(slot_column(size, slot, column), size, column, slot);
}

fn column_of(size: usize, slot: usize, column: usize) -> (r: usize)
    requires
        slot < size,
        column < ROW_WIDTH,
        ROW_WIDTH * size <= usize::MAX,
    ensures
        r == slot_column(size as int, slot as int, column as int),
        r < ROW_WIDTH * size,
{
    proof {
        lemma_slot_column(size as int, slot as int, column as int);
        assert(0 <= column * size <= column * size + slot) by (nonlinear_arith)
            requires
                0 <= column,
                0 <= size,
                0 <= slot,
        ;
    }
    column * size + slot
}

fn map_column(size: usize, slot: usize, column: usize) -> (r: usize)
    requires
        slot < size,
        column < ROW_WIDTH,
        ROW_WIDTH * size <= usize::MAX,
    ensures
        r == mapped(size as int, slot as int, column),
{
    if column == COL_ONE {
        COL_ONE
    } else {
        column_of(size, slot, column)
    }
}

fn map_terms(size: usize, slot: usize, terms: &Vec<Term>) -> (r: Vec<Term>)
    requires
        slot < size,
        terms_bounded(terms@),
        ROW_WIDTH * size <= usize::MAX,
    ensures
        r@ == mapped_terms(size as int, slot as int, terms@),
{
    let mut r: Vec<Term> = Vec::new();
    let mut k: usize = 0;
    while k < terms.len()
        invariant
            slot < size,
            terms_bounded(terms@),
            ROW_WIDTH * size <= usize::MAX,
            k <= terms@.len(),
            r@ == mapped_terms(size as int, slot as int, terms@).take(k as int),
        decreases terms@.len() - k,
    {
        let (column, coefficient) = terms[k];
        assert(terms@[k as int].0 < ROW_WIDTH);
        r.push((map_column(size, slot, column), coefficient));
        k = k + 1;
        assert(r@ =~= mapped_terms(size as int, slot as int, terms@).take(k as int));
    }
    assert(r@ =~= mapped_terms(size as int, slot as int, terms@));
    r
}

fn map4(size: usize, slot: usize, columns: [usize; 4]) -> (r: [usize; 4])
    requires
        slot < size,
        forall|i: int| 0 <= i < 4 ==> #[trigger] columns[i] < ROW_WIDTH,
        ROW_WIDTH * size <= usize::MAX,
    ensures
        r == mapped4(size as int, slot as int, columns),
{
    [
        map_column(size, slot, columns[0]),
        map_column(size, slot, columns[1]),
        map_column(size, slot, columns[2]),
        map_column(size, slot, columns[3]),
    ]
}

fn map8(size: usize, slot: usize, columns: [usize; 8]) -> (r: [usize; 8])
    requires
        slot < size,
        forall|i: int| 0 <= i < 8 ==> #[trigger] columns[i] < ROW_WIDTH,
        ROW_WIDTH * size <= usize::MAX,
    ensures
        r == mapped8(size as int, slot as int, columns),
{
    [
        map_column(size, slot, columns[0]),
        map_column(size, slot, columns[1]),
        map_column(size, slot, columns[2]),
        map_column(size, slot, columns[3]),
        map_column(size, slot, columns[4]),
        map_column(size, slot, columns[5]),
        map_column(size, slot, columns[6]),
        map_column(size, slot, columns[7]),
    ]
}

fn map_constraint(size: usize, slot: usize, constraint: &Constraint) -> (r: Constraint)
    requires
        slot < size,
        bounded(constraint@),
        ROW_WIDTH * size <= usize::MAX,
    ensures
        r@ == mapped_equation(size as int, slot as int, constraint@),
{
    match constraint {
        Constraint::Product { label, a, b, c } => Constraint::Product {
            label: *label,
            a: map_terms(size, slot, a),
            b: map_terms(size, slot, b),
            c: map_terms(size, slot, c),
        },
        Constraint::Compression { label, gadget } => Constraint::Compression {
            label: *label,
            gadget: EventCommitment {
                previous: map4(size, slot, gadget.previous),
                block: map8(size, slot, gadget.block),
                output: map4(size, slot, gadget.output),
            },
        },
    }
}

/// The equations of the slots of [`batch_rows`].
fn push_slots(b: &mut Builder, single: &Vec<Constraint>, size: usize)
    requires
        old(b)@.len() == 0,
        equations(single@) == relation_rows(),
        valid_batch_size(size),
    ensures
        final(b)@ == batch_rows(size as int).take(size * single_constraints()),
{
    let ghost n = single_constraints();
    let ghost all = batch_rows(size as int);
    let count = single.len();
    proof {
        lemma_relation_bounded();
        assert(size * n <= constraint_count(size as int));
        assert(b@ =~= all.take(0));
        assert(0 * n == 0);
    }
    let mut slot: usize = 0;
    while slot < size
        invariant
            slot <= size,
            n == single_constraints(),
            count == single@.len() == n,
            equations(single@) == relation_rows(),
            all_bounded(relation_rows()),
            valid_batch_size(size),
            size * n <= constraint_count(size as int),
            all == batch_rows(size as int),
            b@ == all.take(slot * n),
        decreases size - slot,
    {
        let mut i: usize = 0;
        proof {
            lemma_mul_inequality(slot + 1, size as int, n);
            lemma_mul_is_distributive_add_other_way(n, slot as int, 1);
            assert(0 <= slot * n) by (nonlinear_arith)
                requires
                    0 <= slot,
                    0 <= n,
            ;
        }
        while i < count
            invariant
                slot < size,
                i <= count,
                n == single_constraints(),
                count == single@.len() == n,
                equations(single@) == relation_rows(),
                all_bounded(relation_rows()),
                valid_batch_size(size),
                0 <= slot * n,
                slot * n + n <= size * n <= constraint_count(size as int),
                all == batch_rows(size as int),
                b@ == all.take(slot * n + i),
            decreases count - i,
        {
            assert(equations(single@)[i as int] == single@[i as int]@);
            b.push(map_constraint(size, slot, &single[i]));
            proof {
                lemma_fundamental_div_mod_converse(slot * n + i, n, slot as int, i as int);
                assert(all[slot * n + i] == mapped_equation(
                    size as int,
                    slot as int,
                    relation_rows()[i as int],
                ));
            }
            i = i + 1;
            assert(b@ =~= all.take(slot * n + i));
        }
        slot = slot + 1;
        assert(slot * n == (slot - 1) * n + n) by (nonlinear_arith);
    }
}

/// The carried columns are columns of a row.
pub proof fn lemma_carried_bounded(i: int)
    requires
        0 <= i < carried().len(),
    ensures
        carried()[i].previous_step_column < ROW_WIDTH,
        carried()[i].next_step_column < ROW_WIDTH,
        carried()[i].previous_step_column != COL_ONE,
        carried()[i].next_step_column != COL_ONE,
{
}

/// The carried columns of [`batch_rows`].
fn push_links(b: &mut Builder, links: &Vec<ContinuityLink>, size: usize)
    requires
        old(b)@ == batch_rows(size as int).take(size * single_constraints()),
        links@ == carried(),
        valid_batch_size(size),
    ensures
        final(b)@ == batch_rows(size as int),
{
    let ghost base = size * single_constraints();
    let ghost all = batch_rows(size as int);
    proof {
        assert(0 <= base) by (nonlinear_arith)
            requires
                0 <= size,
                0 <= single_constraints(),
                base == size * single_constraints(),
        ;
    }
    let mut slot: usize = 0;
    while slot < size - 1
        invariant
            slot <= size - 1,
            0 <= base == size * single_constraints(),
            links@ == carried(),
            valid_batch_size(size),
            all == batch_rows(size as int),
            all.len() == base + (size - 1) * LINK_COUNT,
            b@ == all.take(base + slot * LINK_COUNT),
        decreases size - slot,
    {
        let mut i: usize = 0;
        while i < LINK_COUNT
            invariant
                slot < size - 1,
                i <= LINK_COUNT,
                0 <= base == size * single_constraints(),
                links@ == carried(),
                valid_batch_size(size),
                all == batch_rows(size as int),
                all.len() == base + (size - 1) * LINK_COUNT,
                b@ == all.take(base + slot * LINK_COUNT + i),
            decreases LINK_COUNT - i,
        {
            let carry = links[i];
            proof {
                lemma_carried_bounded(i as int);
            }
            b.push_linear_zero(
                "within-batch continuity",
                terms2(
                    column_of(size, slot, carry.previous_step_column),
                    1,
                    column_of(size, slot + 1, carry.next_step_column),
                    -1,
                ),
            );
            assert(all[base + slot * LINK_COUNT + i] == link_row(
                size as int,
                slot as int,
                carried()[i as int],
            ));
            i = i + 1;
            assert(b@ =~= all.take(base + slot * LINK_COUNT + i));
        }
        slot = slot + 1;
    }
    assert(b@ =~= all);
}

/// Whether a port accesses columns of a row.
pub open spec fn port_bounded(port: MemoryPort) -> bool {
    &&& port.bank_column matches Some(column) ==> column < ROW_WIDTH
    &&& port.address_column < ROW_WIDTH
    &&& port.value_column < ROW_WIDTH
    &&& port.kind matches MemoryPortKind::Write { value_before_column: Some(column) } ==> column
        < ROW_WIDTH
    &&& port.activation matches MemoryPortActivation::When(column) ==> column < ROW_WIDTH
    &&& port.activation matches MemoryPortActivation::Unless(column) ==> column < ROW_WIDTH
}

/// The memories have ports, which access columns of a row.
pub proof fn lemma_ports_bounded(m: int)
    requires
        0 <= m < memory_layout().len(),
    ensures
        memory_layout()[m].ports.len() > 0,
        forall|p: int|
            0 <= p < memory_layout()[m].ports.len() ==> port_bounded(
                #[trigger] memory_layout()[m].ports[p],
            ),
{
}

fn map_optional(size: usize, slot: usize, column: Option<usize>) -> (r: Option<usize>)
    requires
        slot < size,
        column matches Some(c) ==> c < ROW_WIDTH,
        ROW_WIDTH * size <= usize::MAX,
    ensures
        r == (match column {
            Some(c) => Some(mapped(size as int, slot as int, c)),
            None => None,
        }),
{
    match column {
        Some(c) => Some(map_column(size, slot, c)),
        None => None,
    }
}

fn map_port(size: usize, slot: usize, port: &MemoryPort) -> (r: MemoryPort)
    requires
        slot < size,
        port_bounded(*port),
        ROW_WIDTH * size <= usize::MAX,
    ensures
        r == mapped_port(size as int, slot as int, *port),
{
    MemoryPort {
        bank_column: map_optional(size, slot, port.bank_column),
        address_column: map_column(size, slot, port.address_column),
        value_column: map_column(size, slot, port.value_column),
        kind: match port.kind {
            MemoryPortKind::Read => MemoryPortKind::Read,
            MemoryPortKind::Write { value_before_column } => MemoryPortKind::Write {
                value_before_column: map_optional(size, slot, value_before_column),
            },
        },
        activation: match port.activation {
            MemoryPortActivation::Always => MemoryPortActivation::Always,
            MemoryPortActivation::When(column) => MemoryPortActivation::When(
                map_column(size, slot, column),
            ),
            MemoryPortActivation::Unless(column) => MemoryPortActivation::Unless(
                map_column(size, slot, column),
            ),
        },
    }
}

/// [`batch_ports`] of some ports.
fn map_ports(size: usize, ports: &Vec<MemoryPort>) -> (r: Vec<MemoryPort>)
    requires
        ports@.len() > 0,
        forall|p: int| 0 <= p < ports@.len() ==> port_bounded(#[trigger] ports@[p]),
        ROW_WIDTH * size <= usize::MAX,
    ensures
        r@ == batch_ports(size as int, ports@),
{
    let ghost all = batch_ports(size as int, ports@);
    let ghost n = ports@.len() as int;
    let mut r: Vec<MemoryPort> = Vec::new();
    let mut slot: usize = 0;
    assert(r@ =~= all.take(0));
    assert(0 * n == 0);
    while slot < size
        invariant
            slot <= size,
            n == ports@.len() > 0,
            forall|p: int| 0 <= p < ports@.len() ==> port_bounded(#[trigger] ports@[p]),
            ROW_WIDTH * size <= usize::MAX,
            all == batch_ports(size as int, ports@),
            r@ == all.take(slot * n),
        decreases size - slot,
    {
        let mut p: usize = 0;
        proof {
            lemma_mul_inequality(slot + 1, size as int, n);
            lemma_mul_is_distributive_add_other_way(n, slot as int, 1);
            assert(0 <= slot * n) by (nonlinear_arith)
                requires
                    0 <= slot,
                    0 <= n,
            ;
        }
        while p < ports.len()
            invariant
                slot < size,
                p <= ports@.len(),
                n == ports@.len() > 0,
                forall|p: int| 0 <= p < ports@.len() ==> port_bounded(#[trigger] ports@[p]),
                ROW_WIDTH * size <= usize::MAX,
                0 <= slot * n,
                slot * n + n <= size * n,
                all == batch_ports(size as int, ports@),
                r@ == all.take(slot * n + p),
            decreases ports@.len() - p,
        {
            r.push(map_port(size, slot, &ports[p]));
            proof {
                lemma_fundamental_div_mod_converse(slot * n + p, n, slot as int, p as int);
                assert(all[slot * n + p] == mapped_port(
                    size as int,
                    slot as int,
                    ports@[p as int],
                ));
            }
            p = p + 1;
            assert(r@ =~= all.take(slot * n + p));
        }
        slot = slot + 1;
        assert(slot * n == (slot - 1) * n + n) by (nonlinear_arith);
    }
    assert(r@ =~= all);
    r
}

/// The memories of batches.
fn map_memories(size: usize) -> (r: Vec<Memory>)
    requires
        ROW_WIDTH * size <= usize::MAX,
    ensures
        memories(r@) == batch_memories(size as int),
{
    let layout = build_memory_layout();
    let mut r: Vec<Memory> = Vec::new();
    let mut m: usize = 0;
    assert(memories(r@) =~= batch_memories(size as int).take(0));
    while m < layout.len()
        invariant
            ROW_WIDTH * size <= usize::MAX,
            memories(layout@) == memory_layout(),
            m <= layout@.len(),
            memories(r@) == batch_memories(size as int).take(m as int),
        decreases layout@.len() - m,
    {
        proof {
            assert(memories(layout@)[m as int] == layout@[m as int]@);
            lemma_ports_bounded(m as int);
        }
        let ghost before = memories(r@);
        let memory = Memory { id: layout[m].id, ports: map_ports(size, &layout[m].ports) };
        assert(memory@ == batch_memory(size as int, memory_layout()[m as int]));
        r.push(memory);
        m = m + 1;
        assert(memories(r@) =~= before.push(memory@));
        assert(memories(r@) =~= batch_memories(size as int).take(m as int));
    }
    assert(memories(r@) =~= batch_memories(size as int)) by {
        assert(memories(layout@).len() == layout@.len());
    }
    r
}

/// The carried columns from batch to batch.
fn map_links(size: usize, links: &Vec<ContinuityLink>) -> (r: Vec<ContinuityLink>)
    requires
        size > 0,
        ROW_WIDTH * size <= usize::MAX,
        links@ == carried(),
    ensures
        r@ == batch_links(size as int),
{
    let mut r: Vec<ContinuityLink> = Vec::new();
    let mut i: usize = 0;
    assert(r@ =~= batch_links(size as int).take(0));
    while i < links.len()
        invariant
            size > 0,
            ROW_WIDTH * size <= usize::MAX,
            links@ == carried(),
            i <= links@.len(),
            r@ == batch_links(size as int).take(i as int),
        decreases links@.len() - i,
    {
        let carry = links[i];
        proof {
            lemma_carried_bounded(i as int);
        }
        r.push(
            ContinuityLink {
                group: carry.group,
                previous_step_column: column_of(size, size - 1, carry.previous_step_column),
                next_step_column: column_of(size, 0, carry.next_step_column),
            },
        );
        i = i + 1;
        assert(r@ =~= batch_links(size as int).take(i as int));
    }
    assert(r@ =~= batch_links(size as int));
    r
}

/// Whether batches of a size can be built, given the number of equations of a row.
fn dimensions_fit(size: usize, single: usize) -> (r: bool)
    requires
        size > 0,
        single == single_constraints(),
    ensures
        r == valid_batch_size(size),
{
    if ROW_WIDTH.checked_mul(size).is_none() {
        return false;
    }
    match single.checked_mul(size) {
        None => {
            proof {
                assert(size * single_constraints() == single * size) by (nonlinear_arith)
                    requires
                        single == single_constraints(),
                ;
            }
            false
        },
        Some(rows) => {
            proof {
                assert(size * single_constraints() == rows) by (nonlinear_arith)
                    requires
                        single == single_constraints(),
                        rows == single * size,
                ;
            }
            match LINK_COUNT.checked_mul(size - 1) {
                None => false,
                Some(links) => rows.checked_add(links).is_some(),
            }
        },
    }
}

impl Batch {
    /// Build batches of a size.
    pub fn new(batch_size: usize) -> (batch: Result<Self, Error>)
        ensures
            batch is Ok <==> valid_batch_size(batch_size),
            batch matches Ok(b) ==> b.wf() && b.size == batch_size,
            batch matches Err(e) ==> e == Error::InvalidBatchSize,
    {
        if batch_size == 0 {
            return Err(Error::InvalidBatchSize);
        }
        let single = build_relation();
        let count = single.len();
        assert(equations(single@).len() == single@.len());
        if !dimensions_fit(batch_size, count) {
            return Err(Error::InvalidBatchSize);
        }
        let links = build_ivc_state_continuity_links();
        let mut builder = Builder::new();
        push_slots(&mut builder, &single, batch_size);
        push_links(&mut builder, &links, batch_size);
        Ok(
            Batch {
                size: batch_size,
                single_constraints: count,
                relation: builder.rows,
                memory: map_memories(batch_size),
                continuity: map_links(batch_size, &links),
            },
        )
    }
}

/// Rows of batches, and where their slots come from.
#[derive(Debug, Clone)]
pub struct PackedWitness {
    pub rows: Vec<Vec<u64>>,
    /// For every slot, the index of its step in the trace; none for padding.
    pub origins: Vec<Option<usize>>,
}

/// Number of batches that hold `n` slots.
pub open spec fn batch_count(n: int, size: int) -> int {
    (n + size - 1) / size
}

/// Row of slot `index`: those behind the last step are padding after it.
pub open spec fn slot_witness(
    steps: Seq<Wit>,
    index: int,
    h: spec_fn([u64; 4], [u64; 8]) -> [u64; 4],
) -> Seq<u64> {
    if index < steps.len() {
        witness_row(steps[index], h)
    } else {
        witness_row(steps.last().padding(), h)
    }
}

/// Row of batch `b`.
pub open spec fn packed_row(
    steps: Seq<Wit>,
    size: int,
    b: int,
    h: spec_fn([u64; 4], [u64; 8]) -> [u64; 4],
) -> Seq<u64> {
    Seq::new(
        (ROW_WIDTH * size) as nat,
        |k: int|
            if k / size == COL_ONE && k % size != 0 {
                0
            } else {
                slot_witness(steps, b * size + k % size, h)[k / size]
            },
    )
}

/// Rows of all batches.
pub open spec fn packed_rows(
    steps: Seq<Wit>,
    size: int,
    h: spec_fn([u64; 4], [u64; 8]) -> [u64; 4],
) -> Seq<Seq<u64>> {
    Seq::new(
        batch_count(steps.len() as int, size) as nat,
        |b: int| packed_row(steps, size, b, h),
    )
}

/// Number of those of the first `n` steps that are not padding.
pub open spec fn real_steps(steps: Seq<Wit>, n: int) -> int
    decreases n,
{
    if n <= 0 {
        0
    } else if steps[n - 1].opcode == Opcode::Padding {
        real_steps(steps, n - 1)
    } else {
        real_steps(steps, n - 1) + 1
    }
}

/// Where slot `index` comes from.
pub open spec fn origin_of(steps: Seq<Wit>, index: int) -> Option<usize> {
    if index < steps.len() && steps[index].opcode != Opcode::Padding {
        Some(real_steps(steps, index) as usize)
    } else {
        None
    }
}

/// Where the slots of all batches come from.
pub open spec fn packed_origins(steps: Seq<Wit>, size: int) -> Seq<Option<usize>> {
    Seq::new(
        (batch_count(steps.len() as int, size) * size) as nat,
        |index: int| origin_of(steps, index),
    )
}

/// Copy a row into a slot of a batch.
fn fill_slot(
    batch: &mut Vec<u64>,
    row: &Vec<u64>,
    size: usize,
    slot: usize,
    Ghost(goal): Ghost<Seq<u64>>,
)
    requires
        slot < size,
        ROW_WIDTH * size <= usize::MAX,
        goal.len() == ROW_WIDTH * size,
        row@.len() == ROW_WIDTH,
        old(batch)@.len() == goal.len(),
        forall|k: int|
            0 <= k < goal.len() ==> #[trigger] old(batch)@[k] == (if k % (size as int) < slot {
                goal[k]
            } else {
                0
            }),
        forall|c: int|
            0 <= c < ROW_WIDTH ==> #[trigger] goal[slot_column(size as int, slot as int, c)] == (
            if c == COL_ONE && slot != 0 {
                0
            } else {
                row@[c]
            }),
    ensures
        final(batch)@.len() == goal.len(),
        forall|k: int|
            0 <= k < goal.len() ==> #[trigger] final(batch)@[k] == (if k % (size as int) < slot
                + 1 {
                goal[k]
            } else {
                0
            }),
{
    let mut c: usize = 0;
    while c < ROW_WIDTH
        invariant
            slot < size,
            c <= ROW_WIDTH,
            ROW_WIDTH * size <= usize::MAX,
            goal.len() == ROW_WIDTH * size,
            row@.len() == ROW_WIDTH,
            batch@.len() == goal.len(),
            forall|k: int|
                0 <= k < goal.len() ==> #[trigger] batch@[k] == (if k % (size as int) < slot || (k
                    % (size as int) == slot && k / (size as int) < c) {
                    goal[k]
                } else {
                    0
                }),
            forall|c: int|
                0 <= c < ROW_WIDTH ==> #[trigger] goal[slot_column(size as int, slot as int, c)]
                    == (if c == COL_ONE && slot != 0 {
                    0
                } else {
                    row@[c]
                }),
        decreases ROW_WIDTH - c,
    {
        let k = column_of(size, slot, c);
        let ghost before = batch@;
        proof {
            lemma_slot_column(size as int, slot as int, c as int);
            assert(goal[slot_column(size as int, slot as int, c as int)] == goal[k as int]);
        }
        if c != COL_ONE || slot == 0 {
            batch[k] = row[c];
        }
        proof {
            assert forall|i: int| 0 <= i < goal.len() implies #[trigger] batch@[i] == (if i % (
            size as int) < slot || (i % (size as int) == slot && i / (size as int) < c + 1) {
                goal[i]
            } else {
                0
            }) by {
                if i != k {
                    assert(batch@[i] == before[i]);
                    if i % (size as int) == slot && i / (size as int) == c {
                        vstd::arithmetic::div_mod::lemma_fundamental_div_mod(i, size as int);
                        assert(size * c == c * size) by (nonlinear_arith);
                    }
                }
            }
        }
        c = c + 1;
    }
    proof {
        assert forall|k: int| 0 <= k < goal.len() implies #[trigger] batch@[k] == (if k % (
        size as int) < slot + 1 {
            goal[k]
        } else {
            0
        }) by {
            lemma_column_bound(size as int, k);
        }
    }
}

/// A column of a batch belongs to a column of a row.
pub proof fn lemma_column_bound(size: int, k: int)
    requires
        size > 0,
        0 <= k < ROW_WIDTH * size,
    ensures
        0 <= k / size < ROW_WIDTH,
        0 <= k % size < size,
        k == slot_column(size, k % size, k / size),
{
    vstd::arithmetic::div_mod::lemma_fundamental_div_mod(k, size);
    vstd::arithmetic::div_mod::lemma_mod_bound(k, size);
    let q = k / size;
    assert(0 <= q < ROW_WIDTH) by (nonlinear_arith)
        requires
            k == size * q + k % size,
            0 <= k % size < size,
            0 <= k < ROW_WIDTH * size,
            size > 0,
    ;
    assert(size * q == q * size) by (nonlinear_arith);
}

/// A row of a slot, as the batch holds it.
proof fn lemma_packed_slot(
    steps: Seq<Wit>,
    size: int,
    b: int,
    slot: int,
    h: spec_fn([u64; 4], [u64; 8]) -> [u64; 4],
)
    requires
        0 <= slot < size,
    ensures
        forall|c: int|
            0 <= c < ROW_WIDTH ==> #[trigger] packed_row(steps, size, b, h)[slot_column(
                size,
                slot,
                c,
            )] == (if c == COL_ONE && slot != 0 {
                0
            } else {
                slot_witness(steps, b * size + slot, h)[c]
            }),
{
    assert forall|c: int| 0 <= c < ROW_WIDTH implies #[trigger] packed_row(
        steps,
        size,
        b,
        h,
    )[slot_column(size, slot, c)] == (if c == COL_ONE && slot != 0 {
        0
    } else {
        slot_witness(steps, b * size + slot, h)[c]
    }) by {
        lemma_slot_column(size, slot, c);
    }
}

/// A batch that is full with the last step leaves no slot behind it.
proof fn lemma_full_batch(n: int, size: int, b: int, slot: int)
    requires
        size > 0,
        b * size < n <= b * size + slot,
        0 <= slot < size,
    ensures
        n % size != 0,
{
    if n % size == 0 {
        vstd::arithmetic::div_mod::lemma_fundamental_div_mod(n, size);
        let q = n / size;
        assert(false) by (nonlinear_arith)
            requires
                n == size * q,
                b * size < n <= b * size + slot,
                slot < size,
                0 < size,
        ;
    }
}

/// Pack the batch that starts with step `start`.
fn pack_batch<C: Fn([u64; 4], [u64; 8]) -> [u64; 4]>(
    steps: &Vec<Wit>,
    start: usize,
    size: usize,
    padding_row: &Vec<u64>,
    compress: &C,
    Ghost(b): Ghost<int>,
) -> (batch: Vec<u64>)
    requires
        is_compression(*compress),
        size > 0,
        ROW_WIDTH * size <= usize::MAX,
        start == b * size < steps@.len(),
        steps@.len() % (size as nat) != 0 ==> padding_row@ == witness_row(
            steps@.last().padding(),
            compression_of(*compress),
        ),
    ensures
        batch@ == packed_row(steps@, size as int, b, compression_of(*compress)),
{
    let ghost h = compression_of(*compress);
    let ghost goal = packed_row(steps@, size as int, b, h);
    let mut batch: Vec<u64> = vec![0; ROW_WIDTH * size];
    let mut slot: usize = 0;
    while slot < size
        invariant
            is_compression(*compress),
            h == compression_of(*compress),
            size > 0,
            ROW_WIDTH * size <= usize::MAX,
            slot <= size,
            start == b * size < steps@.len(),
            steps@.len() % (size as nat) != 0 ==> padding_row@ == witness_row(
                steps@.last().padding(),
                h,
            ),
            goal == packed_row(steps@, size as int, b, h),
            goal.len() == ROW_WIDTH * size,
            batch@.len() == goal.len(),
            forall|k: int|
                0 <= k < goal.len() ==> #[trigger] batch@[k] == (if k % (size as int) < slot {
                    goal[k]
                } else {
                    0
                }),
        decreases size - slot,
    {
        proof {
            lemma_packed_slot(steps@, size as int, b, slot as int, h);
        }
        if slot < steps.len() - start {
            let row = build_witness_vector(&steps[start + slot], compress);
            fill_slot(&mut batch, &row, size, slot, Ghost(goal));
        } else {
            proof {
                lemma_full_batch(steps@.len() as int, size as int, b, slot as int);
            }
            fill_slot(&mut batch, padding_row, size, slot, Ghost(goal));
        }
        slot = slot + 1;
    }
    proof {
        assert forall|k: int| 0 <= k < goal.len() implies batch@[k] == goal[k] by {
            lemma_column_bound(size as int, k);
        }
        assert(batch@ =~= goal);
    }
    batch
}

/// Record where the slots of the batch that starts with step `start` come from.
fn push_origins(
    origins: &mut Vec<Option<usize>>,
    steps: &Vec<Wit>,
    start: usize,
    size: usize,
    trace_step: usize,
) -> (next: usize)
    requires
        start < steps@.len(),
        old(origins)@ == Seq::new(start as nat, |i: int| origin_of(steps@, i)),
        trace_step == real_steps(steps@, start as int) <= start,
    ensures
        final(origins)@ == Seq::new((start + size) as nat, |i: int| origin_of(steps@, i)),
        start + size <= steps@.len() ==> next == real_steps(steps@, start + size) <= start + size,
{
    let mut next = trace_step;
    let mut slot: usize = 0;
    let count = steps.len();
    while slot < size
        invariant
            count == steps@.len(),
            slot <= size,
            start < steps@.len(),
            next <= count,
            start + slot <= steps@.len() ==> next == real_steps(steps@, start + slot) <= start
                + slot,
            origins@ == Seq::new((start + slot) as nat, |i: int| origin_of(steps@, i)),
        decreases size - slot,
    {
        if slot < count - start && steps[start + slot].opcode != Opcode::Padding {
            origins.push(Some(next));
            next = next + 1;
        } else {
            origins.push(None);
        }
        slot = slot + 1;
        assert(origins@ =~= Seq::new((start + slot) as nat, |i: int| origin_of(steps@, i)));
    }
    next
}

/// A batch more.
proof fn lemma_next_batch(n: int, size: int, b: int)
    requires
        size > 0,
        b * size < n,
    ensures
        (b + 1) * size == b * size + size,
        n <= b * size + size ==> batch_count(n, size) == b + 1,
{
    assert((b + 1) * size == b * size + size) by (nonlinear_arith);
    if n <= b * size + size {
        lemma_fundamental_div_mod_converse(
            n + size - 1,
            size,
            b + 1,
            n - 1 - b * size,
        );
    }
}

impl Batch {
    /// Pack the rows of some steps into batches, with padding behind the last step.
    pub fn pack<C: Fn([u64; 4], [u64; 8]) -> [u64; 4]>(
        &self,
        steps: &Vec<Wit>,
        compress: &C,
    ) -> (packed: PackedWitness)
        requires
            self.wf(),
            is_compression(*compress),
        ensures
            row_views(packed.rows@) == packed_rows(
                steps@,
                self.size as int,
                compression_of(*compress),
            ),
            packed.origins@ == packed_origins(steps@, self.size as int),
    {
        let ghost h = compression_of(*compress);
        let size = self.size;
        let count = steps.len();
        let mut rows: Vec<Vec<u64>> = Vec::new();
        let mut origins: Vec<Option<usize>> = Vec::new();
        if count == 0 {
            proof {
                lemma_fundamental_div_mod_converse(size - 1, size as int, 0, size - 1);
                assert(row_views(rows@) =~= packed_rows(steps@, size as int, h));
                assert(origins@ =~= packed_origins(steps@, size as int));
            }
            return PackedWitness { rows, origins };
        }
        let padding_row = build_witness_vector(&steps[count - 1].padding_after(), compress);
        let mut trace_step: usize = 0;
        let mut start: usize = 0;
        let ghost mut b: int = 0;
        assert(row_views(rows@) =~= Seq::new(0, |i: int| packed_row(steps@, size as int, i, h)));
        assert(origins@ =~= Seq::new(0, |i: int| origin_of(steps@, i)));
        loop
            invariant_except_break
                is_compression(*compress),
                h == compression_of(*compress),
                size > 0,
                ROW_WIDTH * size <= usize::MAX,
                count == steps@.len(),
                0 <= b,
                start == b * size < count,
                trace_step == real_steps(steps@, start as int) <= start,
                padding_row@ == witness_row(steps@.last().padding(), h),
                row_views(rows@) == Seq::new(
                    b as nat,
                    |i: int| packed_row(steps@, size as int, i, h),
                ),
                origins@ == Seq::new(start as nat, |i: int| origin_of(steps@, i)),
            ensures
                row_views(rows@) == packed_rows(steps@, size as int, h),
                origins@ == packed_origins(steps@, size as int),
            decreases count - start,
        {
            let batch = pack_batch(steps, start, size, &padding_row, compress, Ghost(b));
            trace_step = push_origins(&mut origins, steps, start, size, trace_step);
            let ghost before = row_views(rows@);
            rows.push(batch);
            proof {
                lemma_next_batch(count as int, size as int, b);
                assert(row_views(rows@) =~= before.push(batch@));
                b = b + 1;
                assert(row_views(rows@) =~= Seq::new(
                    b as nat,
                    |i: int| packed_row(steps@, size as int, i, h),
                ));
            }
            if size >= count - start {
                assert(row_views(rows@) =~= packed_rows(steps@, size as int, h));
                assert(origins@ =~= packed_origins(steps@, size as int));
                break;
            }
            start = start + size;
        }
        PackedWitness { rows, origins }
    }
}

/// Slot of a batch that an equation of it belongs to. A failed link belongs to the
/// later slot, whose state before disagrees with the state after its predecessor.
pub open spec fn slot_of(size: int, row: int) -> int {
    if row < size * single_constraints() {
        row / single_constraints()
    } else {
        (row - size * single_constraints()) / (LINK_COUNT as int) + 1
    }
}

/// The error of a batch that fails an equation.
pub open spec fn constraint_error(
    size: usize,
    origins: Seq<Option<usize>>,
    batch: int,
    row: usize,
) -> Error {
    let slot = slot_of(size as int, row as int);
    let constraint = batch_rows(size as int)[row as int].label_of();
    Error::Unsatisfied(
        match origins[batch * size + slot] {
            Some(step) => Unsatisfied::Constraint { step, row, constraint },
            None => Unsatisfied::PaddingConstraint {
                batch: batch as usize,
                slot: slot as usize,
                batch_size: size,
                row,
                constraint,
            },
        },
    )
}

/// The error of a batch with a wrong number of columns.
pub open spec fn length_error(
    size: usize,
    origins: Seq<Option<usize>>,
    batch: int,
    actual: int,
) -> Error {
    let source = CcsError::LengthMismatch {
        expected: (ROW_WIDTH * size) as usize,
        actual: actual as usize,
    };
    match origins[batch] {
        Some(step) if size == 1 => Error::CcsCheck { step, source },
        _ => Error::BatchedCcsCheck { batch: batch as usize, batch_size: size, source },
    }
}

/// The first failure of the relation, from batch `b` on.
pub open spec fn relation_failure(
    size: usize,
    rows: Seq<Seq<u64>>,
    origins: Seq<Option<usize>>,
    h: spec_fn([u64; 4], [u64; 8]) -> [u64; 4],
    b: int,
) -> Option<Error>
    decreases rows.len() - b,
{
    if b < 0 || b >= rows.len() {
        None
    } else if rows[b].len() != ROW_WIDTH * size {
        Some(length_error(size, origins, b, rows[b].len() as int))
    } else {
        match first_failure(batch_rows(size as int), rows[b], h, 0) {
            Some(row) => Some(constraint_error(size, origins, b, row)),
            None => relation_failure(size, rows, origins, h, b + 1),
        }
    }
}

/// Whether two rows agree on a carried column.
pub open spec fn carries(carry: ContinuityLink, previous: Seq<u64>, next: Seq<u64>) -> bool {
    value_of(previous, carry.previous_step_column) == value_of(next, carry.next_step_column)
}

/// The first carried column that changes, from link `i` of boundary `b` on.
pub open spec fn continuity_failure(
    links: Seq<ContinuityLink>,
    rows: Seq<Seq<u64>>,
    b: int,
    i: int,
) -> Option<ContinuityCheckError>
    decreases rows.len() - b, links.len() - i,
{
    if b < 0 || b + 1 >= rows.len() || i < 0 {
        None
    } else if i >= links.len() {
        continuity_failure(links, rows, b + 1, 0)
    } else if carries(links[i], rows[b], rows[b + 1]) {
        continuity_failure(links, rows, b, i + 1)
    } else {
        Some(
            ContinuityCheckError::Mismatch {
                boundary: b as usize,
                group_name: links[i].group,
                previous_step_column: links[i].previous_step_column,
                next_step_column: links[i].next_step_column,
                previous: value_of(rows[b], links[i].previous_step_column),
                next: value_of(rows[b + 1], links[i].next_step_column),
            },
        )
    }
}

/// Whether every row agrees with the next on some carried columns.
pub open spec fn continuous(links: Seq<ContinuityLink>, rows: Seq<Seq<u64>>) -> bool {
    forall|b: int, i: int|
        0 <= b && b + 1 < rows.len() && 0 <= i < links.len() ==> #[trigger] carries(
            links[i],
            rows[b],
            rows[b + 1],
        )
}

/// Whether errors speak of steps: batches of one slot, none of which is padding.
pub open spec fn step_coordinates(size: usize, origins: Seq<Option<usize>>) -> bool {
    size == 1 && forall|i: int| 0 <= i < origins.len() ==> (#[trigger] origins[i]) is Some
}

/// Outcome of the check of batches: the relation of every batch comes first, then
/// memory, then the state carried from batch to batch.
pub open spec fn check_outcome(
    size: usize,
    rows: Seq<Seq<u64>>,
    origins: Seq<Option<usize>>,
    words: Seq<u64>,
    h: spec_fn([u64; 4], [u64; 8]) -> [u64; 4],
) -> Result<(), Error> {
    let layout = batch_memories(size as int);
    match relation_failure(size, rows, origins, h, 0) {
        Some(error) => Err(error),
        None => match memory_failure(layout, rows, initial_stores(layout, words), 0) {
            Some(source) => Err(
                Error::Unsatisfied(
                    if step_coordinates(size, origins) {
                        Unsatisfied::Memory(source)
                    } else {
                        Unsatisfied::BatchedMemory { batch_size: size, source }
                    },
                ),
            ),
            None => match continuity_failure(batch_links(size as int), rows, 0, 0) {
                Some(source) => Err(
                    Error::Unsatisfied(
                        if step_coordinates(size, origins) {
                            Unsatisfied::Continuity(source)
                        } else {
                            Unsatisfied::BatchedContinuity { batch_size: size, source }
                        },
                    ),
                ),
                None => Ok(()),
            },
        },
    }
}

/// Whether batches satisfy the relation, memory and continuity.
pub open spec fn batches_satisfied(
    size: usize,
    rows: Seq<Seq<u64>>,
    words: Seq<u64>,
    h: spec_fn([u64; 4], [u64; 8]) -> [u64; 4],
) -> bool {
    let layout = batch_memories(size as int);
    &&& forall|b: int|
        0 <= b < rows.len() ==> (#[trigger] rows[b]).len() == ROW_WIDTH * size && satisfied(
            batch_rows(size as int),
            rows[b],
            h,
        )
    &&& memory_consistent(layout, rows, initial_stores(layout, words))
    &&& continuous(batch_links(size as int), rows)
}

proof fn lemma_relation_failure(
    size: usize,
    rows: Seq<Seq<u64>>,
    origins: Seq<Option<usize>>,
    h: spec_fn([u64; 4], [u64; 8]) -> [u64; 4],
    b: int,
)
    requires
        0 <= b <= rows.len(),
        batch_rows(size as int).len() <= usize::MAX,
    ensures
        relation_failure(size, rows, origins, h, b) is None <==> (forall|i: int|
            b <= i < rows.len() ==> (#[trigger] rows[i]).len() == ROW_WIDTH * size && satisfied(
                batch_rows(size as int),
                rows[i],
                h,
            )),
    decreases rows.len() - b,
{
    if b < rows.len() {
        lemma_first_failure(batch_rows(size as int), rows[b], h, 0);
        lemma_relation_failure(size, rows, origins, h, b + 1);
    }
}

proof fn lemma_continuity_failure(
    links: Seq<ContinuityLink>,
    rows: Seq<Seq<u64>>,
    b: int,
    i: int,
)
    requires
        0 <= b,
        0 <= i,
    ensures
        continuity_failure(links, rows, b, i) is None <==> (forall|c: int, j: int|
            (b < c || (b == c && i <= j)) && c + 1 < rows.len() && 0 <= j < links.len()
                ==> #[trigger] carries(links[j], rows[c], rows[c + 1])),
    decreases rows.len() - b, links.len() - i,
{
    if b + 1 < rows.len() {
        if i >= links.len() {
            lemma_continuity_failure(links, rows, b + 1, 0);
        } else if carries(links[i], rows[b], rows[b + 1]) {
            lemma_continuity_failure(links, rows, b, i + 1);
        }
    }
}

/// The check succeeds exactly where the batches satisfy the relation, memory and
/// continuity.
pub proof fn law_check_is_exact(
    size: usize,
    rows: Seq<Seq<u64>>,
    origins: Seq<Option<usize>>,
    words: Seq<u64>,
    h: spec_fn([u64; 4], [u64; 8]) -> [u64; 4],
)
    requires
        valid_batch_size(size),
    ensures
        check_outcome(size, rows, origins, words, h) is Ok <==> batches_satisfied(
            size,
            rows,
            words,
            h,
        ),
{
    let layout = batch_memories(size as int);
    let links = batch_links(size as int);
    lemma_relation_failure(size, rows, origins, h, 0);
    lemma_memory_failure(layout, rows, initial_stores(layout, words), 0);
    lemma_continuity_failure(links, rows, 0, 0);
    assert(continuity_failure(links, rows, 0, 0) is None <==> continuous(links, rows)) by {
        if continuity_failure(links, rows, 0, 0) is None {
            assert forall|b: int, i: int|
                0 <= b && b + 1 < rows.len() && 0 <= i < links.len() implies #[trigger] carries(
                links[i],
                rows[b],
                rows[b + 1],
            ) by {}
        }
    }
}

/// The first carried column that changes.
fn check_continuity_rows(links: &Vec<ContinuityLink>, rows: &Vec<Vec<u64>>) -> (failure: Option<
    ContinuityCheckError,
>)
    ensures
        failure == continuity_failure(links@, row_views(rows@), 0, 0),
{
    let ghost zs = row_views(rows@);
    let count = rows.len();
    let mut b: usize = 0;
    while b < count && b < count - 1
        invariant
            count == rows@.len(),
            zs == row_views(rows@),
            b <= count,
            continuity_failure(links@, zs, 0, 0) == continuity_failure(links@, zs, b as int, 0),
        decreases count - b,
    {
        let mut i: usize = 0;
        while i < links.len()
            invariant
                count == rows@.len(),
                zs == row_views(rows@),
                b + 1 < count,
                i <= links@.len(),
                continuity_failure(links@, zs, 0, 0) == continuity_failure(
                    links@,
                    zs,
                    b as int,
                    i as int,
                ),
            decreases links@.len() - i,
        {
            let carry = links[i];
            let previous = column_value(&rows[b], carry.previous_step_column);
            let next = column_value(&rows[b + 1], carry.next_step_column);
            if previous != next {
                return Some(
                    ContinuityCheckError::Mismatch {
                        boundary: b,
                        group_name: carry.group,
                        previous_step_column: carry.previous_step_column,
                        next_step_column: carry.next_step_column,
                        previous,
                        next,
                    },
                );
            }
            i = i + 1;
        }
        b = b + 1;
    }
    None
}

/// Whether every slot comes from a step.
fn all_real(origins: &Vec<Option<usize>>) -> (r: bool)
    ensures
        r == (forall|i: int| 0 <= i < origins@.len() ==> (#[trigger] origins@[i]) is Some),
{
    let mut i: usize = 0;
    while i < origins.len()
        invariant
            i <= origins@.len(),
            forall|j: int| 0 <= j < i ==> (#[trigger] origins@[j]) is Some,
        decreases origins@.len() - i,
    {
        if origins[i].is_none() {
            assert(!(origins@[i as int] is Some));
            return false;
        }
        i = i + 1;
    }
    true
}

/// The slot of an equation is a slot of the batch.
pub(crate) proof fn lemma_slot_of(size: int, row: int)
    requires
        size > 0,
        0 <= row < constraint_count(size),
    ensures
        0 <= slot_of(size, row) < size,
        row < size * single_constraints() ==> single_constraints() > 0,
{
    let n = single_constraints();
    if row < size * n {
        assert(n > 0) by (nonlinear_arith)
            requires
                0 <= row < size * n,
                size > 0,
        ;
        vstd::arithmetic::div_mod::lemma_fundamental_div_mod(row, n);
        vstd::arithmetic::div_mod::lemma_mod_bound(row, n);
        let q = row / n;
        assert(0 <= q < size) by (nonlinear_arith)
            requires
                row == n * q + row % n,
                0 <= row % n < n,
                0 <= row < size * n,
        ;
    }
}

impl Batch {
    /// The error of a batch that fails an equation.
    fn constraint_failure(&self, origins: &Vec<Option<usize>>, batch: usize, row: usize) -> (error:
        Error)
        requires
            self.wf(),
            row < self.relation@.len(),
            (batch + 1) * self.size <= origins@.len(),
        ensures
            error == constraint_error(self.size, origins@, batch as int, row),
    {
        let count = origins.len();
        assert(equations(self.relation@).len() == self.relation@.len());
        proof {
            lemma_slot_of(self.size as int, row as int);
            assert((batch + 1) * self.size == batch * self.size + self.size) by (nonlinear_arith);
            assert(0 <= batch * self.size) by (nonlinear_arith)
                requires
                    0 <= batch,
                    0 <= self.size,
            ;
            assert(0 <= self.size * single_constraints()) by (nonlinear_arith)
                requires
                    0 <= self.size,
                    0 <= single_constraints(),
            ;
        }
        let slots = self.size * self.single_constraints;
        let slot = if row < slots {
            row / self.single_constraints
        } else {
            (row - slots) / LINK_COUNT + 1
        };
        let constraint = self.relation[row].label();
        assert(equations(self.relation@)[row as int] == self.relation@[row as int]@);
        Error::Unsatisfied(
            match origins[batch * self.size + slot] {
                Some(step) => Unsatisfied::Constraint { step, row, constraint },
                None => Unsatisfied::PaddingConstraint {
                    batch,
                    slot,
                    batch_size: self.size,
                    row,
                    constraint,
                },
            },
        )
    }

    /// The error of a batch with a wrong number of columns.
    fn length_failure(&self, origins: &Vec<Option<usize>>, batch: usize, actual: usize) -> (error:
        Error)
        requires
            self.wf(),
            batch < origins@.len(),
        ensures
            error == length_error(self.size, origins@, batch as int, actual as int),
    {
        let source = CcsError::LengthMismatch { expected: ROW_WIDTH * self.size, actual };
        if self.size == 1 {
            if let Some(step) = origins[batch] {
                return Error::CcsCheck { step, source };
            }
        }
        Error::BatchedCcsCheck { batch, batch_size: self.size, source }
    }

    /// The first failure of the relation.
    fn check_relation<C: Fn([u64; 4], [u64; 8]) -> [u64; 4]>(
        &self,
        packed: &PackedWitness,
        compress: &C,
    ) -> (failure: Option<Error>)
        requires
            self.wf(),
            is_compression(*compress),
            packed.origins@.len() == packed.rows@.len() * self.size,
        ensures
            failure == relation_failure(
                self.size,
                row_views(packed.rows@),
                packed.origins@,
                compression_of(*compress),
                0,
            ),
    {
        let ghost h = compression_of(*compress);
        let ghost zs = row_views(packed.rows@);
        let mut b: usize = 0;
        while b < packed.rows.len()
            invariant
                self.wf(),
                is_compression(*compress),
                h == compression_of(*compress),
                zs == row_views(packed.rows@),
                packed.origins@.len() == packed.rows@.len() * self.size,
                b <= packed.rows@.len(),
                relation_failure(self.size, zs, packed.origins@, h, 0) == relation_failure(
                    self.size,
                    zs,
                    packed.origins@,
                    h,
                    b as int,
                ),
            decreases packed.rows@.len() - b,
        {
            let row = &packed.rows[b];
            proof {
                lemma_mul_inequality(b + 1, packed.rows@.len() as int, self.size as int);
                assert(b < (b + 1) * self.size) by (nonlinear_arith)
                    requires
                        0 <= b,
                        0 < self.size,
                ;
            }
            if row.len() != ROW_WIDTH * self.size {
                return Some(self.length_failure(&packed.origins, b, row.len()));
            }
            match check_rowwise(&self.relation, row, compress) {
                Some(failed) => {
                    return Some(self.constraint_failure(&packed.origins, b, failed));
                },
                None => {},
            }
            b = b + 1;
        }
        None
    }

    /// Check batches: the relation of every batch comes first, then memory, then the
    /// state carried from batch to batch.
    pub fn check<C: Fn([u64; 4], [u64; 8]) -> [u64; 4]>(
        &self,
        packed: &PackedWitness,
        preload: &MemoryPreload,
        compress: &C,
    ) -> (result: Result<(), Error>)
        requires
            self.wf(),
            is_compression(*compress),
            packed.origins@.len() == packed.rows@.len() * self.size,
        ensures
            result == check_outcome(
                self.size,
                row_views(packed.rows@),
                packed.origins@,
                preload.method_words@,
                compression_of(*compress),
            ),
    {
        if let Some(error) = self.check_relation(packed, compress) {
            return Err(error);
        }
        let single = self.size == 1 && all_real(&packed.origins);
        if let Some(source) = check_memory_rows(&self.memory, &packed.rows, preload) {
            return Err(
                Error::Unsatisfied(
                    if single {
                        Unsatisfied::Memory(source)
                    } else {
                        Unsatisfied::BatchedMemory { batch_size: self.size, source }
                    },
                ),
            );
        }
        if let Some(source) = check_continuity_rows(&self.continuity, &packed.rows) {
            return Err(
                Error::Unsatisfied(
                    if single {
                        Unsatisfied::Continuity(source)
                    } else {
                        Unsatisfied::BatchedContinuity { batch_size: self.size, source }
                    },
                ),
            );
        }
        Ok(())
    }
}

} // verus!
