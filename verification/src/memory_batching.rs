//! Memory agrees with batches exactly where it agrees with their slots, one after the
//! other.

use vstd::prelude::*;

use crate::batch::{batch_memories, batch_ports, mapped_port};
use crate::batching::{lemma_mapped_at, slot_row};
use crate::layout::ROW_WIDTH;
use crate::memory::{
    after_ports, after_rows, initial_stores, instance_memories, memory_consistent, memory_layout,
    method_memories, row_agrees, stack_memories, MemoryPort, MemoryPortActivation, MemoryPortKind,
    Store,
};
use vstd::arithmetic::div_mod::{
    lemma_fundamental_div_mod, lemma_fundamental_div_mod_converse, lemma_mod_bound,
};

verus! {

/// The rows in the slots of some batches.
pub open spec fn flattened(rows: Seq<Seq<u64>>, size: int) -> Seq<Seq<u64>> {
    Seq::new(
        (rows.len() * size) as nat,
        |i: int| slot_row(rows[i / size], size, i % size),
    )
}

/// Whether the columns of a port are those of a row.
pub open spec fn port_bounded(port: MemoryPort) -> bool {
    &&& port.bank_column matches Some(c) ==> c < ROW_WIDTH
    &&& port.address_column < ROW_WIDTH
    &&& port.value_column < ROW_WIDTH
    &&& port.kind matches MemoryPortKind::Write { value_before_column: Some(c) } ==> c < ROW_WIDTH
    &&& match port.activation {
        MemoryPortActivation::Always => true,
        MemoryPortActivation::When(c) => c < ROW_WIDTH,
        MemoryPortActivation::Unless(c) => c < ROW_WIDTH,
    }
}

/// A port of a slot does to memory what the port of the slot's row does.
proof fn lemma_mapped_port(z: Seq<u64>, size: int, slot: int, port: MemoryPort, store: Store)
    requires
        0 <= slot < size,
        z.len() == ROW_WIDTH * size,
        ROW_WIDTH * size <= usize::MAX,
        port_bounded(port),
    ensures
        mapped_port(size, slot, port).agrees(z, store) == port.agrees(
            slot_row(z, size, slot),
            store,
        ),
        mapped_port(size, slot, port).after(z, store) == port.after(slot_row(z, size, slot), store),
{
    match port.bank_column {
        Some(c) => {
            lemma_mapped_at(z, size, slot, c);
        },
        None => {},
    }
    lemma_mapped_at(z, size, slot, port.address_column);
    lemma_mapped_at(z, size, slot, port.value_column);
    match port.kind {
        MemoryPortKind::Write { value_before_column: Some(c) } => {
            lemma_mapped_at(z, size, slot, c);
        },
        _ => {},
    }
    match port.activation {
        MemoryPortActivation::Always => {},
        MemoryPortActivation::When(c) => {
            lemma_mapped_at(z, size, slot, c);
        },
        MemoryPortActivation::Unless(c) => {
            lemma_mapped_at(z, size, slot, c);
        },
    }
}

/// Whether batches have the width of their size.
spec fn widths(rows: Seq<Seq<u64>>, size: int) -> bool {
    forall|b: int| 0 <= b < rows.len() ==> (#[trigger] rows[b]).len() == ROW_WIDTH * size
}

/// The place of a port of a slot among those of a batch.
proof fn lemma_port_place(n: int, size: int, slot: int, p: int)
    requires
        0 <= slot < size,
        0 <= p < n,
    ensures
        0 <= slot * n + p < size * n,
        (slot * n + p) / n == slot,
        (slot * n + p) % n == p,
{
    assert(0 <= slot * n && slot * n + n <= size * n) by (nonlinear_arith)
        requires
            0 <= slot < size,
            0 < n,
    ;
    lemma_fundamental_div_mod_converse(slot * n + p, n, slot, p);
}

/// The place of a slot among those of all batches.
pub(crate) proof fn lemma_slot_place(count: int, size: int, b: int, slot: int)
    requires
        0 <= b < count,
        0 <= slot < size,
    ensures
        0 <= b * size + slot < count * size,
        (b * size + slot) / size == b,
        (b * size + slot) % size == slot,
{
    lemma_port_place(size, count, b, slot);
}

/// Memory as a port of a slot finds it.
proof fn lemma_found(
    ports: Seq<MemoryPort>,
    rows: Seq<Seq<u64>>,
    size: int,
    store: Store,
    b: int,
    slot: int,
    p: int,
)
    requires
        0 < size,
        ROW_WIDTH * size <= usize::MAX,
        widths(rows, size),
        forall|q: int| 0 <= q < ports.len() ==> port_bounded(#[trigger] ports[q]),
        0 <= b < rows.len(),
        0 <= slot < size,
        0 <= p <= ports.len(),
    ensures
        after_ports(
            batch_ports(size, ports),
            rows[b],
            after_rows(batch_ports(size, ports), rows, store, b),
            slot * ports.len() + p,
        ) == after_ports(
            ports,
            flattened(rows, size)[b * size + slot],
            after_rows(ports, flattened(rows, size), store, b * size + slot),
            p,
        ),
    decreases b, slot, p,
{
    let n = ports.len() as int;
    let flat = flattened(rows, size);
    let all = batch_ports(size, ports);
    lemma_slot_place(rows.len() as int, size, b, slot);
    if p > 0 {
        lemma_found(ports, rows, size, store, b, slot, p - 1);
        lemma_port_place(n, size, slot, p - 1);
        let k = slot * n + p - 1;
        assert(all[k] == mapped_port(size, slot, ports[p - 1]));
        lemma_mapped_port(
            rows[b],
            size,
            slot,
            ports[p - 1],
            after_ports(all, rows[b], after_rows(all, rows, store, b), k),
        );
        assert(0 <= slot * n) by (nonlinear_arith)
            requires
                0 <= slot,
                0 <= n,
        ;
    } else if slot > 0 {
        lemma_found(ports, rows, size, store, b, slot - 1, n);
        assert((slot - 1) * n + n == slot * n) by (nonlinear_arith);
    } else if b > 0 {
        lemma_found(ports, rows, size, store, b - 1, size - 1, n);
        assert((size - 1) * n + n == size * n) by (nonlinear_arith);
        assert((b - 1) * size + (size - 1) + 1 == b * size) by (nonlinear_arith);
        assert(all.len() == size * n) by (nonlinear_arith)
            requires
                all.len() == (size * n) as nat,
                0 <= n,
                0 < size,
        ;
        assert(0 * n == 0);
    } else {
        assert(0 * n == 0);
        assert(0 * size == 0);
    }
}

/// Memory agrees with a batch exactly where it agrees with its slots.
proof fn lemma_batch_agrees(
    rows: Seq<Seq<u64>>,
    size: int,
    words: Seq<u64>,
    b: int,
    m: int,
)
    requires
        0 < size,
        ROW_WIDTH * size <= usize::MAX,
        widths(rows, size),
        0 <= b < rows.len(),
        0 <= m < memory_layout().len(),
        forall|q: int|
            0 <= q < memory_layout()[m].ports.len() ==> port_bounded(
                #[trigger] memory_layout()[m].ports[q],
            ),
    ensures
        row_agrees(
            batch_memories(size),
            rows,
            initial_stores(batch_memories(size), words),
            b,
            m,
        ) <==> (forall|slot: int|
            0 <= slot < size ==> row_agrees(
                memory_layout(),
                flattened(rows, size),
                initial_stores(memory_layout(), words),
                #[trigger] (b * size + slot),
                m,
            )),
{
    let ports = memory_layout()[m].ports;
    let n = ports.len() as int;
    let flat = flattened(rows, size);
    let layout = batch_memories(size);
    let store = initial_stores(memory_layout(), words)[m];
    assert(initial_stores(layout, words)[m] == store);
    let all = batch_ports(size, ports);
    assert(layout[m].ports == all);
    // A port of a slot sees the same memory and claims the same in both readings.
    assert forall|slot: int, p: int| 0 <= slot < size && 0 <= p < n implies (#[trigger] all[slot * n
        + p]).agrees(
        rows[b],
        after_ports(all, rows[b], after_rows(all, rows, store, b), slot * n + p),
    ) == ports[p].agrees(
        flat[b * size + slot],
        after_ports(ports, flat[b * size + slot], after_rows(ports, flat, store, b * size + slot), p),
    ) by {
        lemma_port_place(n, size, slot, p);
        lemma_slot_place(rows.len() as int, size, b, slot);
        lemma_found(ports, rows, size, store, b, slot, p);
        lemma_mapped_port(
            rows[b],
            size,
            slot,
            ports[p],
            after_ports(all, rows[b], after_rows(all, rows, store, b), slot * n + p),
        );
    }
    let whole = row_agrees(layout, rows, initial_stores(layout, words), b, m);
    if whole {
        assert forall|slot: int| 0 <= slot < size implies row_agrees(
            memory_layout(),
            flat,
            initial_stores(memory_layout(), words),
            #[trigger] (b * size + slot),
            m,
        ) by {
            assert forall|p: int| 0 <= p < n implies (#[trigger] ports[p]).agrees(
                flat[b * size + slot],
                after_ports(
                    ports,
                    flat[b * size + slot],
                    after_rows(ports, flat, store, b * size + slot),
                    p,
                ),
            ) by {
                lemma_port_place(n, size, slot, p);
                assert(layout[m].ports[slot * n + p] == all[slot * n + p]);
            }
        }
    }
    if forall|slot: int|
        0 <= slot < size ==> row_agrees(
            memory_layout(),
            flat,
            initial_stores(memory_layout(), words),
            #[trigger] (b * size + slot),
            m,
        ) {
        assert forall|k: int| 0 <= k < layout[m].ports.len() implies (
        #[trigger] layout[m].ports[k]).agrees(
            rows[b],
            after_ports(
                layout[m].ports,
                rows[b],
                after_rows(layout[m].ports, rows, initial_stores(layout, words)[m], b),
                k,
            ),
        ) by {
            let slot = k / n;
            let p = k % n;
            lemma_fundamental_div_mod(k, n);
            lemma_mod_bound(k, n);
            assert(0 <= slot < size) by (nonlinear_arith)
                requires
                    k == n * slot + p,
                    0 <= p < n,
                    0 <= k < size * n,
            ;
            assert(n * slot == slot * n) by (nonlinear_arith);
            assert(row_agrees(
                memory_layout(),
                flat,
                initial_stores(memory_layout(), words),
                b * size + slot,
                m,
            ));
            assert(memory_layout()[m].ports[p].agrees(
                flat[b * size + slot],
                after_ports(
                    ports,
                    flat[b * size + slot],
                    after_rows(ports, flat, store, b * size + slot),
                    p,
                ),
            ));
            assert(all[slot * n + p] == layout[m].ports[k]);
        }
    }
}

/// The ports of the memories of a row are those of its columns, each open only where a
/// column is not zero.
proof fn lemma_ports_bounded(m: int, q: int)
    requires
        0 <= m < memory_layout().len(),
        0 <= q < memory_layout()[m].ports.len(),
    ensures
        port_bounded(memory_layout()[m].ports[q]),
        memory_layout()[m].ports[q].activation is When,
{
    if m < 4 {
        assert(memory_layout()[m] == stack_memories()[m]);
    } else if m < 9 {
        assert(memory_layout()[m] == method_memories()[m - 4]);
    } else {
        assert(memory_layout()[m] == instance_memories()[m - 9]);
    }
}

/// Memory agrees with batches exactly where it agrees with their slots, one after the
/// other.
pub proof fn law_memory_of_batches_is_that_of_slots(
    rows: Seq<Seq<u64>>,
    size: int,
    words: Seq<u64>,
)
    requires
        0 < size,
        ROW_WIDTH * size <= usize::MAX,
        forall|b: int| 0 <= b < rows.len() ==> (#[trigger] rows[b]).len() == ROW_WIDTH * size,
    ensures
        memory_consistent(
            batch_memories(size),
            rows,
            initial_stores(batch_memories(size), words),
        ) <==> memory_consistent(
            memory_layout(),
            flattened(rows, size),
            initial_stores(memory_layout(), words),
        ),
{
    let layout = batch_memories(size);
    let flat = flattened(rows, size);
    let initial = initial_stores(memory_layout(), words);
    assert(0 <= rows.len() * size) by (nonlinear_arith)
        requires
            0 < size,
    ;
    assert forall|m: int, q: int|
        0 <= m < memory_layout().len() && 0 <= q < memory_layout()[m].ports.len() implies port_bounded(
        #[trigger] memory_layout()[m].ports[q],
    ) by {
        lemma_ports_bounded(m, q);
    }
    if memory_consistent(layout, rows, initial_stores(layout, words)) {
        assert forall|i: int, m: int|
            0 <= i < flat.len() && 0 <= m < memory_layout().len() implies #[trigger] row_agrees(
            memory_layout(),
            flat,
            initial,
            i,
            m,
        ) by {
            let b = i / size;
            let slot = i % size;
            crate::verify::lemma_slot_index(rows.len() as int, size, i);
            lemma_batch_agrees(rows, size, words, b, m);
            assert(row_agrees(layout, rows, initial_stores(layout, words), b, m));
            assert(row_agrees(memory_layout(), flat, initial, b * size + slot, m));
        }
    }
    if memory_consistent(memory_layout(), flat, initial) {
        assert forall|b: int, m: int|
            0 <= b < rows.len() && 0 <= m < layout.len() implies #[trigger] row_agrees(
            layout,
            rows,
            initial_stores(layout, words),
            b,
            m,
        ) by {
            assert forall|slot: int| 0 <= slot < size implies row_agrees(
                memory_layout(),
                flat,
                initial,
                #[trigger] (b * size + slot),
                m,
            ) by {
                lemma_slot_place(rows.len() as int, size, b, slot);
            }
            lemma_batch_agrees(rows, size, words, b, m);
        }
    }
}

/// Whether no port of a row is open.
pub open spec fn idle(z: Seq<u64>) -> bool {
    forall|m: int, q: int|
        0 <= m < memory_layout().len() && 0 <= q < memory_layout()[m].ports.len()
            ==> !(#[trigger] memory_layout()[m].ports[q]).active(z)
}

/// Memory after some rows depends on those rows only.
proof fn lemma_after_prefix(
    ports: Seq<MemoryPort>,
    a: Seq<Seq<u64>>,
    b: Seq<Seq<u64>>,
    store: Store,
    r: int,
)
    requires
        0 <= r <= a.len(),
        r <= b.len(),
        forall|i: int| 0 <= i < r ==> #[trigger] a[i] == b[i],
    ensures
        after_rows(ports, a, store, r) == after_rows(ports, b, store, r),
    decreases r,
{
    if r > 0 {
        lemma_after_prefix(ports, a, b, store, r - 1);
        assert(a[r - 1] == b[r - 1]);
    }
}

/// Idle rows behind others make no difference to memory.
pub proof fn law_idle_rows_do_not_touch_memory(
    rows: Seq<Seq<u64>>,
    padded: Seq<Seq<u64>>,
    initial: Seq<Store>,
)
    requires
        rows.len() <= padded.len(),
        forall|i: int| 0 <= i < rows.len() ==> #[trigger] padded[i] == rows[i],
        forall|i: int| rows.len() <= i < padded.len() ==> idle(#[trigger] padded[i]),
    ensures
        memory_consistent(memory_layout(), padded, initial) <==> memory_consistent(
            memory_layout(),
            rows,
            initial,
        ),
{
    let layout = memory_layout();
    assert forall|r: int, m: int| 0 <= r < rows.len() && 0 <= m < layout.len() implies (
    #[trigger] row_agrees(layout, padded, initial, r, m) <==> row_agrees(
        layout,
        rows,
        initial,
        r,
        m,
    )) by {
        lemma_after_prefix(layout[m].ports, padded, rows, initial[m], r);
        assert(padded[r] == rows[r]);
    }
    if memory_consistent(layout, padded, initial) {
        assert forall|r: int, m: int|
            0 <= r < rows.len() && 0 <= m < layout.len() implies #[trigger] row_agrees(
            layout,
            rows,
            initial,
            r,
            m,
        ) by {
            assert(row_agrees(layout, padded, initial, r, m));
        }
    }
    if memory_consistent(layout, rows, initial) {
        assert forall|r: int, m: int|
            0 <= r < padded.len() && 0 <= m < layout.len() implies #[trigger] row_agrees(
            layout,
            padded,
            initial,
            r,
            m,
        ) by {
            if r < rows.len() {
                assert(row_agrees(layout, rows, initial, r, m));
            } else {
                assert(idle(padded[r]));
            }
        }
    }
}

} // verus!
