//! A read gives back what was written last.

use vstd::prelude::*;

use crate::memory::{
    after_ports, after_rows, cell_key, held, memory_consistent, row_agrees, value_of,
    MemoryCheckError, MemoryId, MemoryModel, MemoryPort, MemoryPortActivation, MemoryPortKind,
    Store,
};

verus! {

/// Whether a row writes a cell through a port from `p` on.
pub open spec fn touches(ports: Seq<MemoryPort>, z: Seq<u64>, key: u128, p: int) -> bool {
    exists|q: int|
        p <= q < ports.len() && (#[trigger] ports[q]).active(z) && ports[q].kind is Write
            && ports[q].key(z) == key
}

/// Ports that do not write a cell leave it as it is.
pub(crate) proof fn lemma_untouched_ports(
    ports: Seq<MemoryPort>,
    z: Seq<u64>,
    store: Store,
    key: u128,
    p: int,
    n: int,
)
    requires
        0 <= p <= n <= ports.len(),
        forall|q: int|
            p <= q < n ==> !((#[trigger] ports[q]).active(z) && ports[q].kind is Write
                && ports[q].key(z) == key),
    ensures
        held(after_ports(ports, z, store, n), key) == held(after_ports(ports, z, store, p), key),
    decreases n - p,
{
    if p < n {
        lemma_untouched_ports(ports, z, store, key, p, n - 1);
        let port = ports[n - 1];
        assert(!(port.active(z) && port.kind is Write && port.key(z) == key));
    }
}

/// Rows that do not write a cell leave it as it is.
pub proof fn law_untouched_cells_keep_their_value(
    ports: Seq<MemoryPort>,
    rows: Seq<Seq<u64>>,
    store: Store,
    key: u128,
    from: int,
    to: int,
)
    requires
        0 <= from <= to <= rows.len(),
        forall|r: int| from <= r < to ==> !touches(ports, #[trigger] rows[r], key, 0),
    ensures
        held(after_rows(ports, rows, store, to), key) == held(
            after_rows(ports, rows, store, from),
            key,
        ),
    decreases to - from,
{
    if from < to {
        law_untouched_cells_keep_their_value(ports, rows, store, key, from, to - 1);
        let z = rows[to - 1];
        let before = after_rows(ports, rows, store, to - 1);
        assert(!touches(ports, rows[to - 1], key, 0));
        lemma_untouched_ports(ports, z, before, key, 0, ports.len() as int);
    }
}

/// Ports that write nothing leave memory as it is.
pub(crate) proof fn lemma_quiet_ports(ports: Seq<MemoryPort>, z: Seq<u64>, store: Store, n: int)
    requires
        0 <= n <= ports.len(),
        forall|q: int|
            0 <= q < n ==> !((#[trigger] ports[q]).active(z) && ports[q].kind is Write),
    ensures
        after_ports(ports, z, store, n) == store,
    decreases n,
{
    if n > 0 {
        lemma_quiet_ports(ports, z, store, n - 1);
        assert(!(ports[n - 1].active(z) && ports[n - 1].kind is Write));
    }
}

/// A cell holds what the last port that writes it writes.
pub(crate) proof fn lemma_written(ports: Seq<MemoryPort>, z: Seq<u64>, store: Store, q: int)
    requires
        0 <= q < ports.len(),
        ports[q].active(z),
        ports[q].kind is Write,
        !touches(ports, z, ports[q].key(z), q + 1),
    ensures
        held(after_ports(ports, z, store, ports.len() as int), ports[q].key(z)) == value_of(
            z,
            ports[q].value_column,
        ),
{
    lemma_untouched_ports(ports, z, store, ports[q].key(z), q + 1, ports.len() as int);
}

/// Where memory agrees with every access, a read gives the value of the last write to its
/// cell: the one of port `q` of row `i`, where no port behind it, no row in between and no
/// port before the read writes the cell.
pub proof fn law_reads_give_the_last_write(
    layout: Seq<MemoryModel>,
    rows: Seq<Seq<u64>>,
    initial: Seq<Store>,
    m: int,
    i: int,
    q: int,
    r: int,
    p: int,
)
    requires
        memory_consistent(layout, rows, initial),
        0 <= m < layout.len(),
        0 <= i < r < rows.len(),
        0 <= q < layout[m].ports.len(),
        0 <= p < layout[m].ports.len(),
        layout[m].ports[q].active(rows[i]),
        layout[m].ports[q].kind is Write,
        layout[m].ports[p].active(rows[r]),
        layout[m].ports[p].kind is Read,
        layout[m].ports[p].key(rows[r]) == layout[m].ports[q].key(rows[i]),
        !touches(layout[m].ports, rows[i], layout[m].ports[q].key(rows[i]), q + 1),
        forall|k: int|
            i < k < r ==> !touches(
                layout[m].ports,
                #[trigger] rows[k],
                layout[m].ports[q].key(rows[i]),
                0,
            ),
        !touches(layout[m].ports, rows[r], layout[m].ports[q].key(rows[i]), 0),
    ensures
        value_of(rows[r], layout[m].ports[p].value_column) == value_of(
            rows[i],
            layout[m].ports[q].value_column,
        ),
{
    let ports = layout[m].ports;
    let key = ports[q].key(rows[i]);
    let store = initial[m];
    lemma_written(ports, rows[i], after_rows(ports, rows, store, i), q);
    law_untouched_cells_keep_their_value(ports, rows, store, key, i + 1, r);
    lemma_untouched_ports(ports, rows[r], after_rows(ports, rows, store, r), key, 0, p);
    assert(row_agrees(layout, rows, initial, r, m));
    assert(ports[p].agrees(
        rows[r],
        after_ports(ports, rows[r], after_rows(ports, rows, store, r), p),
    ));
}

/// A read of a cell that no row before it writes gives what the cell held at the start.
pub proof fn law_reads_of_fresh_cells_give_the_initial_value(
    layout: Seq<MemoryModel>,
    rows: Seq<Seq<u64>>,
    initial: Seq<Store>,
    m: int,
    r: int,
    p: int,
)
    requires
        memory_consistent(layout, rows, initial),
        0 <= m < layout.len(),
        0 <= r < rows.len(),
        0 <= p < layout[m].ports.len(),
        layout[m].ports[p].active(rows[r]),
        layout[m].ports[p].kind is Read,
        forall|k: int|
            0 <= k <= r ==> !touches(
                layout[m].ports,
                #[trigger] rows[k],
                layout[m].ports[p].key(rows[r]),
                0,
            ),
    ensures
        value_of(rows[r], layout[m].ports[p].value_column) == held(
            initial[m],
            layout[m].ports[p].key(rows[r]),
        ),
{
    let ports = layout[m].ports;
    let key = ports[p].key(rows[r]);
    let store = initial[m];
    law_untouched_cells_keep_their_value(ports, rows, store, key, 0, r);
    assert(!touches(ports, rows[r], key, 0));
    lemma_untouched_ports(ports, rows[r], after_rows(ports, rows, store, r), key, 0, p);
    assert(row_agrees(layout, rows, initial, r, m));
    assert(ports[p].agrees(
        rows[r],
        after_ports(ports, rows[r], after_rows(ports, rows, store, r), p),
    ));
}

/// Cells of one memory are told apart by their bank and their address.
pub proof fn law_cells_are_told_apart(bank: u64, address: u64, bank2: u64, address2: u64)
    ensures
        cell_key(bank, address) == cell_key(bank2, address2) <==> bank == bank2 && address
            == address2,
{
}

/// Memory agrees with an access exactly where the port is not active in the row, or what
/// the row reads, or replaces and states, is what the cell holds.
pub proof fn law_accesses_agree_with_what_cells_hold(port: MemoryPort, z: Seq<u64>, store: Store)
    ensures
        port.agrees(z, store) <==> {
            let cell = held(
                store,
                cell_key(
                    match port.bank_column {
                        Some(column) => value_of(z, column),
                        None => 0,
                    },
                    value_of(z, port.address_column),
                ),
            );
            ||| port.activation matches MemoryPortActivation::When(gate) && value_of(z, gate) == 0
            ||| port.activation matches MemoryPortActivation::Unless(gate) && value_of(z, gate) != 0
            ||| port.kind is Read && value_of(z, port.value_column) == cell
            ||| port.kind matches MemoryPortKind::Write { value_before_column } && (
            value_before_column matches Some(column) ==> value_of(z, column) == cell)
        },
{
}

/// The error of an access that memory contradicts has the row and the port, the cell, what
/// the row claims and, where the cell was written, what it holds; the two differ.
pub proof fn law_contradictions_show_their_access(
    port: MemoryPort,
    z: Seq<u64>,
    store: Store,
    id: MemoryId,
    r: usize,
    p: usize,
)
    requires
        !port.agrees(z, store),
    ensures
        match port.error(z, store, id, r as int, p as int) {
            MemoryCheckError::ReadMismatch {
                memory,
                row,
                port: number,
                bank,
                address,
                expected,
                actual,
            } => {
                &&& memory == id && row == r && number == p
                &&& port.key(z) == cell_key(bank, address)
                &&& address == value_of(z, port.address_column)
                &&& store.contains_key(port.key(z))
                &&& expected == held(store, port.key(z))
                &&& port.claim(z) == Some(actual)
                &&& expected != actual
            },
            MemoryCheckError::ZeroReadMismatch {
                memory,
                row,
                port: number,
                bank,
                address,
                actual,
            } => {
                &&& memory == id && row == r && number == p
                &&& port.key(z) == cell_key(bank, address)
                &&& address == value_of(z, port.address_column)
                &&& !store.contains_key(port.key(z))
                &&& port.claim(z) == Some(actual)
                &&& actual != 0
            },
        },
{
}

} // verus!
