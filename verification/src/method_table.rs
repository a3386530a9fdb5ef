//! The methods of a trace, sorted and without duplicates.

use vstd::prelude::*;

use crate::trace::{MethodHash, Step};

verus! {

/// The method that a step names, if it names one.
pub open spec fn method_of(step: Step) -> Option<MethodHash> {
    match step {
        Step::RegisterMethod { method } => Some(method),
        Step::PreloadMethod { method } => Some(method),
        Step::ReadAbi { method } => Some(method),
        Step::CallMethod { method, .. } => Some(method),
        Step::EnterMethod { method, .. } => Some(method),
        _ => None,
    }
}

/// Whether two methods have the same first `k` limbs.
pub open spec fn agree_before(a: MethodHash, b: MethodHash, k: int) -> bool {
    forall|j: int| 0 <= j < k ==> a.0[j] == b.0[j]
}

/// Lexicographic order of limbs.
pub open spec fn precedes(a: MethodHash, b: MethodHash) -> bool {
    exists|k: int| 0 <= k < 8 && #[trigger] agree_before(a, b, k) && a.0[k] < b.0[k]
}

/// Number of leading methods of `table`, from `i` on, that precede `method`.
pub open spec fn insertion_point(table: Seq<MethodHash>, method: MethodHash, i: int) -> int
    decreases table.len() - i,
{
    if i < 0 || i >= table.len() || !precedes(table[i], method) {
        i
    } else {
        insertion_point(table, method, i + 1)
    }
}

/// A table with a method added in its place, unless it is there already.
pub open spec fn with_method(table: Seq<MethodHash>, method: MethodHash) -> Seq<MethodHash> {
    let i = insertion_point(table, method, 0);
    if i < table.len() && table[i] == method {
        table
    } else {
        table.insert(i, method)
    }
}

/// The methods of the first `n` steps.
pub open spec fn methods_of(steps: Seq<Step>, n: int) -> Seq<MethodHash>
    decreases n,
{
    if n <= 0 {
        seq![]
    } else {
        match method_of(steps[n - 1]) {
            Some(method) => with_method(methods_of(steps, n - 1), method),
            None => methods_of(steps, n - 1),
        }
    }
}

/// Position of `method` in `table`, from `i` on.
pub open spec fn position_from(table: Seq<MethodHash>, method: MethodHash, i: int) -> int
    decreases table.len() - i,
{
    if i < 0 || i >= table.len() || table[i] == method {
        i
    } else {
        position_from(table, method, i + 1)
    }
}

/// Whether every method precedes the later ones.
pub open spec fn strictly_sorted(table: Seq<MethodHash>) -> bool {
    forall|i: int, j: int| 0 <= i < j < table.len() ==> precedes(#[trigger] table[i], #[trigger] table[j])
}

proof fn lemma_precedes_transitive(a: MethodHash, b: MethodHash, c: MethodHash)
    requires
        precedes(a, b),
        precedes(b, c),
    ensures
        precedes(a, c),
{
    let k = choose|k: int| 0 <= k < 8 && #[trigger] agree_before(a, b, k) && a.0[k] < b.0[k];
    let l = choose|l: int| 0 <= l < 8 && #[trigger] agree_before(b, c, l) && b.0[l] < c.0[l];
    let m = if k < l {
        k
    } else {
        l
    };
    assert(agree_before(a, c, m));
}

proof fn lemma_precedes_irreflexive(a: MethodHash)
    ensures
        !precedes(a, a),
{
}

/// Of two different methods, one precedes the other.
proof fn lemma_precedes_total(a: MethodHash, b: MethodHash)
    requires
        a != b,
    ensures
        precedes(a, b) || precedes(b, a),
{
    assert(!agree_before(a, b, 8)) by {
        if agree_before(a, b, 8) {
            assert(a.0 =~= b.0);
        }
    }
    lemma_first_difference(a, b, 8);
}

proof fn lemma_first_difference(a: MethodHash, b: MethodHash, n: int)
    requires
        0 <= n <= 8,
        !agree_before(a, b, n),
    ensures
        precedes(a, b) || precedes(b, a),
    decreases n,
{
    if agree_before(a, b, n - 1) {
        assert(agree_before(b, a, n - 1));
        assert(a.0[n - 1] != b.0[n - 1]);
    } else {
        lemma_first_difference(a, b, n - 1);
    }
}

proof fn lemma_insertion_point(table: Seq<MethodHash>, method: MethodHash, i: int)
    requires
        0 <= i <= table.len(),
    ensures
        ({
            let p = insertion_point(table, method, i);
            &&& i <= p <= table.len()
            &&& forall|j: int| i <= j < p ==> precedes(#[trigger] table[j], method)
            &&& p < table.len() ==> !precedes(table[p], method)
        }),
    decreases table.len() - i,
{
    if i < table.len() && precedes(table[i], method) {
        lemma_insertion_point(table, method, i + 1);
    }
}

proof fn lemma_with_method(table: Seq<MethodHash>, method: MethodHash)
    requires
        strictly_sorted(table),
    ensures
        strictly_sorted(with_method(table, method)),
        forall|m: MethodHash| #[trigger]
            with_method(table, method).contains(m) <==> table.contains(m) || m == method,
        with_method(table, method).len() <= table.len() + 1,
{
    let p = insertion_point(table, method, 0);
    lemma_insertion_point(table, method, 0);
    if p < table.len() && table[p] == method {
        assert(table.contains(method));
    } else {
        let r = table.insert(p, method);
        if p < table.len() {
            lemma_precedes_total(table[p], method);
        }
        assert forall|i: int, j: int| 0 <= i < j < r.len() implies precedes(
            #[trigger] r[i],
            #[trigger] r[j],
        ) by {
            if i == p && j > p + 1 {
                assert(precedes(table[p], table[j - 1]));
                lemma_precedes_transitive(method, table[p], table[j - 1]);
            }
        }
        assert forall|m: MethodHash| #[trigger] r.contains(m) implies table.contains(m) || m
            == method by {
            let i = choose|i: int| 0 <= i < r.len() && r[i] == m;
            if i < p {
                assert(table[i] == m);
            } else if i > p {
                assert(table[i - 1] == m);
            }
        }
        assert forall|m: MethodHash| table.contains(m) || m == method implies #[trigger] r.contains(
            m,
        ) by {
            if m == method {
                assert(r[p] == m);
            } else {
                let i = choose|i: int| 0 <= i < table.len() && table[i] == m;
                if i < p {
                    assert(r[i] == m);
                } else {
                    assert(r[i + 1] == m);
                }
            }
        }
    }
}

/// The table of a trace is strictly sorted and holds the methods that the trace
/// names, and no others.
pub proof fn law_method_table_is_sorted_set(steps: Seq<Step>, n: int)
    requires
        0 <= n <= steps.len(),
    ensures
        strictly_sorted(methods_of(steps, n)),
        methods_of(steps, n).len() <= n,
        forall|m: MethodHash| #[trigger]
            methods_of(steps, n).contains(m) <==> exists|i: int|
                0 <= i < n && #[trigger] method_of(steps[i]) == Some(m),
    decreases n,
{
    if n > 0 {
        law_method_table_is_sorted_set(steps, n - 1);
        let before = methods_of(steps, n - 1);
        let after = methods_of(steps, n);
        if let Some(method) = method_of(steps[n - 1]) {
            lemma_with_method(before, method);
        }
        assert forall|m: MethodHash| #[trigger] after.contains(m) implies exists|i: int|
            0 <= i < n && #[trigger] method_of(steps[i]) == Some(m) by {
            if before.contains(m) {
                let i = choose|i: int| 0 <= i < n - 1 && #[trigger] method_of(steps[i]) == Some(m);
                assert(method_of(steps[i]) == Some(m));
            } else {
                assert(method_of(steps[n - 1]) == Some(m));
            }
        }
        assert forall|m: MethodHash|
            (exists|i: int|
                0 <= i < n && #[trigger] method_of(steps[i]) == Some(m)) implies #[trigger] after.contains(
            m,
        ) by {
            let i = choose|i: int| 0 <= i < n && #[trigger] method_of(steps[i]) == Some(m);
            if i < n - 1 {
                assert(before.contains(m));
            }
        }
    }
}

/// A method is found where it stands in a table, at its first place from `i` on; none is
/// found only where the table does not hold it there.
pub proof fn law_positions_are_found(table: Seq<MethodHash>, method: MethodHash, i: int)
    requires
        0 <= i <= table.len(),
    ensures
        i <= position_from(table, method, i) <= table.len(),
        position_from(table, method, i) < table.len() ==> table[position_from(table, method, i)]
            == method,
        forall|j: int|
            i <= j < table.len() && #[trigger] table[j] == method ==> position_from(
                table,
                method,
                i,
            ) <= j,
    decreases table.len() - i,
{
    if i < table.len() && table[i] != method {
        law_positions_are_found(table, method, i + 1);
    }
}

/// A strictly sorted table is determined by the methods that it holds.
pub proof fn law_sorted_table_is_unique(a: Seq<MethodHash>, b: Seq<MethodHash>)
    requires
        strictly_sorted(a),
        strictly_sorted(b),
        forall|m: MethodHash| a.contains(m) <==> b.contains(m),
    ensures
        a == b,
    decreases a.len(),
{
    if a.len() == 0 {
        if b.len() > 0 {
            assert(b.contains(b[0]));
        }
    } else if b.len() == 0 {
        assert(a.contains(a[0]));
    } else {
        let x = a.last();
        let y = b.last();
        assert(a.contains(x) && b.contains(y));
        assert(b.contains(x) && a.contains(y));
        let i = choose|i: int| 0 <= i < b.len() && b[i] == x;
        let j = choose|j: int| 0 <= j < a.len() && a[j] == y;
        if x != y {
            assert(precedes(b[i], b[b.len() - 1]));
            assert(precedes(a[j], a[a.len() - 1]));
            lemma_precedes_transitive(x, y, x);
            lemma_precedes_irreflexive(x);
        }
        let a1 = a.drop_last();
        let b1 = b.drop_last();
        assert forall|m: MethodHash| a1.contains(m) <==> b1.contains(m) by {
            if a1.contains(m) {
                let k = choose|k: int| 0 <= k < a1.len() && a1[k] == m;
                assert(a[k] == m);
                assert(precedes(a[k], a[a.len() - 1]));
                lemma_precedes_irreflexive(m);
                assert(b.contains(m));
                let l = choose|l: int| 0 <= l < b.len() && b[l] == m;
                assert(b1[l] == m);
            }
            if b1.contains(m) {
                let k = choose|k: int| 0 <= k < b1.len() && b1[k] == m;
                assert(b[k] == m);
                assert(precedes(b[k], b[b.len() - 1]));
                lemma_precedes_irreflexive(m);
                assert(a.contains(m));
                let l = choose|l: int| 0 <= l < a.len() && a[l] == m;
                assert(a1[l] == m);
            }
        }
        law_sorted_table_is_unique(a1, b1);
        assert(a =~= a1.push(x));
        assert(b =~= b1.push(y));
    }
}

/// A table finds each method that it holds.
pub proof fn lemma_position_found(table: Seq<MethodHash>, method: MethodHash, i: int)
    requires
        0 <= i <= table.len(),
    ensures
        i <= position_from(table, method, i) <= table.len(),
        position_from(table, method, i) < table.len() ==> table[position_from(table, method, i)]
            == method,
        (exists|j: int| i <= j < table.len() && table[j] == method) ==> position_from(
            table,
            method,
            i,
        ) < table.len(),
    decreases table.len() - i,
{
    if i < table.len() && table[i] != method {
        lemma_position_found(table, method, i + 1);
    }
}

/// Whether two methods are the same.
pub(crate) fn same_method(a: &MethodHash, b: &MethodHash) -> (same: bool)
    ensures
        same == (*a == *b),
{
    let mut k: usize = 0;
    while k < 8
        invariant
            k <= 8,
            agree_before(*a, *b, k as int),
        decreases 8 - k,
    {
        if a.0[k] != b.0[k] {
            return false;
        }
        k = k + 1;
    }
    assert(a.0 =~= b.0);
    true
}

/// Whether `a` precedes `b`.
fn is_before(a: &MethodHash, b: &MethodHash) -> (before: bool)
    ensures
        before == precedes(*a, *b),
{
    let mut k: usize = 0;
    while k < 8
        invariant
            k <= 8,
            agree_before(*a, *b, k as int),
        decreases 8 - k,
    {
        if a.0[k] < b.0[k] {
            return true;
        }
        if a.0[k] > b.0[k] {
            proof {
                if precedes(*a, *b) {
                    let l = choose|l: int|
                        0 <= l < 8 && #[trigger] agree_before(*a, *b, l) && a.0[l] < b.0[l];
                    assert(l <= k || a.0[k as int] == b.0[k as int]);
                }
            }
            return false;
        }
        k = k + 1;
    }
    false
}

/// [`method_of`] a step.
fn step_method(step: &Step) -> (method: Option<MethodHash>)
    ensures
        method == method_of(*step),
{
    match *step {
        Step::RegisterMethod { method } => Some(method),
        Step::PreloadMethod { method } => Some(method),
        Step::ReadAbi { method } => Some(method),
        Step::CallMethod { method, .. } => Some(method),
        Step::EnterMethod { method, .. } => Some(method),
        _ => None,
    }
}

/// Add a method in its place, unless it is there already.
fn insert_method(table: &mut Vec<MethodHash>, method: MethodHash)
    ensures
        final(table)@ == with_method(old(table)@, method),
{
    let mut i: usize = 0;
    while i < table.len() && is_before(&table[i], &method)
        invariant
            table@ == old(table)@,
            i <= table@.len(),
            insertion_point(table@, method, 0) == insertion_point(table@, method, i as int),
        decreases table@.len() - i,
    {
        i = i + 1;
    }
    assert(insertion_point(table@, method, 0) == i);
    if i < table.len() && same_method(&table[i], &method) {
        return;
    }
    table.insert(i, method);
}

/// The methods that the steps name, sorted and without duplicates.
pub fn method_table(steps: &Vec<Step>) -> (table: Vec<MethodHash>)
    ensures
        table@ == methods_of(steps@, steps@.len() as int),
{
    let mut table: Vec<MethodHash> = Vec::new();
    let mut i: usize = 0;
    while i < steps.len()
        invariant
            i <= steps@.len(),
            table@ == methods_of(steps@, i as int),
        decreases steps@.len() - i,
    {
        if let Some(method) = step_method(&steps[i]) {
            insert_method(&mut table, method);
        }
        i = i + 1;
    }
    table
}

/// Position of a method in a table; the length of the table where it is absent.
pub(crate) fn method_position(table: &Vec<MethodHash>, method: &MethodHash) -> (position: usize)
    ensures
        position == position_from(table@, *method, 0),
        position <= table@.len(),
{
    let mut i: usize = 0;
    while i < table.len() && !same_method(&table[i], method)
        invariant
            i <= table@.len(),
            position_from(table@, *method, 0) == position_from(table@, *method, i as int),
        decreases table@.len() - i,
    {
        i = i + 1;
    }
    i
}

} // verus!
