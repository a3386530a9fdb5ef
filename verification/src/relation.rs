//! Constraints over an assignment of columns, and their evaluation.

use vstd::prelude::*;

use crate::compression::{commit_block, compression_of, extended, is_compression};
use crate::field::{canonical, field_add, field_mul, field_sub, residue, vanishes, FIELD_MODULUS};
use crate::layout::COL_ONE;
use vstd::arithmetic::div_mod::{
    lemma_add_mod_noop, lemma_mod_equivalence, lemma_mul_mod_noop,
    lemma_mul_mod_noop_left,
};

verus! {

/// A column and its coefficient.
pub type Term = (usize, i64);

/// Columns that a compression step relates: four columns of the chain before, the
/// eight of a block and four of the chain after.
#[derive(Clone, Copy, Debug, PartialEq, Eq)]
pub struct EventCommitment {
    pub previous: [usize; 4],
    pub block: [usize; 8],
    pub output: [usize; 4],
}

/// A constraint of the relation, with the label that a failure reports.
#[derive(Debug)]
pub enum Constraint {
    /// The product of the sums `a` and `b` is the sum `c`.
    Product { label: &'static str, a: Vec<Term>, b: Vec<Term>, c: Vec<Term> },
    /// The output columns hold the chain extended by the block.
    Compression { label: &'static str, gadget: EventCommitment },
}

/// What a constraint states.
#[verifier::ext_equal]
pub enum Equation {
    Product { label: &'static str, a: Seq<Term>, b: Seq<Term>, c: Seq<Term> },
    Compression { label: &'static str, gadget: EventCommitment },
}

impl View for Constraint {
    type V = Equation;

    open spec fn view(&self) -> Equation {
        match *self {
            Constraint::Product { label, a, b, c } => Equation::Product {
                label,
                a: a@,
                b: b@,
                c: c@,
            },
            Constraint::Compression { label, gadget } => Equation::Compression { label, gadget },
        }
    }
}

impl Constraint {
    /// The label of the constraint.
    pub fn label(&self) -> (label: &'static str)
        ensures
            label == self@.label_of(),
    {
        match self {
            Constraint::Product { label, .. } => *label,
            Constraint::Compression { label, .. } => *label,
        }
    }
}

/// What a sequence of constraints states.
pub open spec fn equations(constraints: Seq<Constraint>) -> Seq<Equation> {
    Seq::new(constraints.len(), |i: int| constraints[i]@)
}

/// Value of a column. A column beyond the assignment is zero.
pub open spec fn at(z: Seq<u64>, column: usize) -> u64 {
    if column < z.len() {
        z[column as int]
    } else {
        0
    }
}

/// Sum of the first `n` terms.
pub open spec fn partial_sum(terms: Seq<Term>, z: Seq<u64>, n: int) -> int
    decreases n,
{
    if n <= 0 {
        0
    } else {
        partial_sum(terms, z, n - 1) + terms[n - 1].1 * at(z, terms[n - 1].0)
    }
}

/// Sum of terms.
pub open spec fn sum(terms: Seq<Term>, z: Seq<u64>) -> int {
    partial_sum(terms, z, terms.len() as int)
}

/// Values of four columns.
pub open spec fn values4(columns: [usize; 4], z: Seq<u64>) -> [u64; 4] {
    [at(z, columns[0]), at(z, columns[1]), at(z, columns[2]), at(z, columns[3])]
}

/// Values of eight columns.
pub open spec fn values8(columns: [usize; 8], z: Seq<u64>) -> [u64; 8] {
    [
        at(z, columns[0]),
        at(z, columns[1]),
        at(z, columns[2]),
        at(z, columns[3]),
        at(z, columns[4]),
        at(z, columns[5]),
        at(z, columns[6]),
        at(z, columns[7]),
    ]
}

impl Equation {
    pub open spec fn label_of(self) -> &'static str {
        match self {
            Equation::Product { label, .. } => label,
            Equation::Compression { label, .. } => label,
        }
    }

    /// Whether an assignment meets the equation.
    #[verifier::opaque]
    pub open spec fn holds(self, z: Seq<u64>, h: spec_fn([u64; 4], [u64; 8]) -> [u64; 4]) -> bool {
        match self {
            Equation::Product { a, b, c, .. } => vanishes(sum(a, z) * sum(b, z) - sum(c, z)),
            Equation::Compression { gadget, .. } => {
                let image = extended(h, values4(gadget.previous, z), values8(gadget.block, z));
                &&& residue(at(z, gadget.output[0]) as int) == image[0]
                &&& residue(at(z, gadget.output[1]) as int) == image[1]
                &&& residue(at(z, gadget.output[2]) as int) == image[2]
                &&& residue(at(z, gadget.output[3]) as int) == image[3]
            },
        }
    }
}

/// Whether an assignment meets every equation.
pub open spec fn satisfied(
    rows: Seq<Equation>,
    z: Seq<u64>,
    h: spec_fn([u64; 4], [u64; 8]) -> [u64; 4],
) -> bool {
    forall|i: int| 0 <= i < rows.len() ==> (#[trigger] rows[i]).holds(z, h)
}

/// The first equation, from `i` on, that an assignment fails.
pub open spec fn first_failure(
    rows: Seq<Equation>,
    z: Seq<u64>,
    h: spec_fn([u64; 4], [u64; 8]) -> [u64; 4],
    i: int,
) -> Option<usize>
    decreases rows.len() - i,
{
    if i < 0 || i >= rows.len() {
        None
    } else if !rows[i].holds(z, h) {
        Some(i as usize)
    } else {
        first_failure(rows, z, h, i + 1)
    }
}

/// There is no first failure exactly where every equation is met.
pub proof fn lemma_first_failure(
    rows: Seq<Equation>,
    z: Seq<u64>,
    h: spec_fn([u64; 4], [u64; 8]) -> [u64; 4],
    i: int,
)
    requires
        0 <= i <= rows.len(),
        rows.len() <= usize::MAX,
    ensures
        first_failure(rows, z, h, i) is None <==> (forall|j: int|
            i <= j < rows.len() ==> (#[trigger] rows[j]).holds(z, h)),
        first_failure(rows, z, h, i) matches Some(k) ==> i <= k < rows.len()
            && !rows[k as int].holds(z, h) && (forall|j: int|
            i <= j < k ==> (#[trigger] rows[j]).holds(z, h)),
    decreases rows.len() - i,
{
    if i < rows.len() && rows[i].holds(z, h) {
        lemma_first_failure(rows, z, h, i + 1);
    }
}

/// The sum of some terms is zero.
pub open spec fn linear(label: &'static str, terms: Seq<Term>) -> Equation {
    Equation::Product { label, a: terms, b: seq![(COL_ONE, 1i64)], c: seq![] }
}

/// Where the gating column is one, the sum of some terms is zero.
pub open spec fn gated(label: &'static str, gate: usize, terms: Seq<Term>) -> Equation {
    Equation::Product { label, a: seq![(gate, 1i64)], b: terms, c: seq![] }
}

/// A product of two sums.
pub open spec fn product(label: &'static str, a: Seq<Term>, b: Seq<Term>, c: Seq<Term>) -> Equation {
    Equation::Product { label, a, b, c }
}

/// Constraints under construction.
pub struct Builder {
    pub rows: Vec<Constraint>,
}

impl View for Builder {
    type V = Seq<Equation>;

    open spec fn view(&self) -> Seq<Equation> {
        equations(self.rows@)
    }
}

impl Builder {
    pub fn new() -> (builder: Self)
        ensures
            builder@ == Seq::<Equation>::empty(),
    {
        let builder = Builder { rows: Vec::new() };
        assert(builder@ =~= Seq::<Equation>::empty());
        builder
    }

    pub fn push(&mut self, constraint: Constraint)
        ensures
            final(self)@ == old(self)@.push(constraint@),
    {
        self.rows.push(constraint);
        assert(self@ =~= old(self)@.push(constraint@));
    }

    /// Add a [`product`].
    pub fn push_row(&mut self, label: &'static str, a: Vec<Term>, b: Vec<Term>, c: Vec<Term>)
        ensures
            final(self)@ == old(self)@.push(product(label, a@, b@, c@)),
    {
        self.push(Constraint::Product { label, a, b, c });
    }

    /// Add a [`linear`] constraint.
    pub fn push_linear_zero(&mut self, label: &'static str, terms: Vec<Term>)
        ensures
            final(self)@ == old(self)@.push(linear(label, terms@)),
    {
        let one: Vec<Term> = vec![(COL_ONE, 1)];
        assert(one@ =~= seq![(COL_ONE, 1i64)]);
        let none: Vec<Term> = Vec::new();
        self.push(Constraint::Product { label, a: terms, b: one, c: none });
    }

    /// Add a [`gated`] constraint.
    pub fn push_gated_linear_zero(&mut self, label: &'static str, gate: usize, terms: Vec<Term>)
        ensures
            final(self)@ == old(self)@.push(gated(label, gate, terms@)),
    {
        let open: Vec<Term> = vec![(gate, 1)];
        assert(open@ =~= seq![(gate, 1i64)]);
        let none: Vec<Term> = Vec::new();
        self.push(Constraint::Product { label, a: open, b: terms, c: none });
    }
}

/// One term.
pub(crate) fn terms1(c0: usize, k0: i64) -> (terms: Vec<Term>)
    ensures
        terms@ == seq![(c0, k0)],
{
    let terms: Vec<Term> = vec![(c0, k0)];
    assert(terms@ =~= seq![(c0, k0)]);
    terms
}

/// Two terms.
pub(crate) fn terms2(c0: usize, k0: i64, c1: usize, k1: i64) -> (terms: Vec<Term>)
    ensures
        terms@ == seq![(c0, k0), (c1, k1)],
{
    let terms: Vec<Term> = vec![(c0, k0), (c1, k1)];
    assert(terms@ =~= seq![(c0, k0), (c1, k1)]);
    terms
}

/// Three terms.
pub(crate) fn terms3(c0: usize, k0: i64, c1: usize, k1: i64, c2: usize, k2: i64) -> (terms: Vec<
    Term,
>)
    ensures
        terms@ == seq![(c0, k0), (c1, k1), (c2, k2)],
{
    let terms: Vec<Term> = vec![(c0, k0), (c1, k1), (c2, k2)];
    assert(terms@ =~= seq![(c0, k0), (c1, k1), (c2, k2)]);
    terms
}

/// Four terms.
pub(crate) fn terms4(
    c0: usize,
    k0: i64,
    c1: usize,
    k1: i64,
    c2: usize,
    k2: i64,
    c3: usize,
    k3: i64,
) -> (terms: Vec<Term>)
    ensures
        terms@ == seq![(c0, k0), (c1, k1), (c2, k2), (c3, k3)],
{
    let terms: Vec<Term> = vec![(c0, k0), (c1, k1), (c2, k2), (c3, k3)];
    assert(terms@ =~= seq![(c0, k0), (c1, k1), (c2, k2), (c3, k3)]);
    terms
}

/// Five terms.
pub(crate) fn terms5(
    c0: usize,
    k0: i64,
    c1: usize,
    k1: i64,
    c2: usize,
    k2: i64,
    c3: usize,
    k3: i64,
    c4: usize,
    k4: i64,
) -> (terms: Vec<Term>)
    ensures
        terms@ == seq![(c0, k0), (c1, k1), (c2, k2), (c3, k3), (c4, k4)],
{
    let terms: Vec<Term> = vec![(c0, k0), (c1, k1), (c2, k2), (c3, k3), (c4, k4)];
    assert(terms@ =~= seq![(c0, k0), (c1, k1), (c2, k2), (c3, k3), (c4, k4)]);
    terms
}

/// No term.
pub(crate) fn terms0() -> (terms: Vec<Term>)
    ensures
        terms@ == Seq::<Term>::empty(),
{
    Vec::new()
}

/// The residue of a coefficient.
fn coefficient(k: i64) -> (r: u64)
    ensures
        r == residue(k as int),
{
    if k >= 0 {
        canonical(k as u64)
    } else {
        field_sub(0, (0 - (k as i128)) as u64)
    }
}

proof fn lemma_add_term(s: int, k: int, x: int)
    ensures
        residue(residue(s) + residue(residue(k) * x)) == residue(s + k * x),
{
    let p = FIELD_MODULUS as int;
    lemma_mul_mod_noop_left(k, x, p);
    lemma_add_mod_noop(s, k * x, p);
}

proof fn lemma_product(a: int, b: int, c: int)
    ensures
        residue(residue(a) * residue(b)) == residue(c) <==> vanishes(a * b - c),
{
    let p = FIELD_MODULUS as int;
    lemma_mul_mod_noop(a, b, p);
    lemma_mod_equivalence(a * b, c, p);
}

/// Value of a column. A column beyond the assignment is zero.
pub(crate) fn value_at(z: &Vec<u64>, column: usize) -> (value: u64)
    ensures
        value == at(z@, column),
{
    if column < z.len() {
        z[column]
    } else {
        0
    }
}

/// The residue of a sum of terms.
fn evaluate(terms: &Vec<Term>, z: &Vec<u64>) -> (r: u64)
    ensures
        r == residue(sum(terms@, z@)),
{
    let mut acc: u64 = 0;
    let mut n: usize = 0;
    while n < terms.len()
        invariant
            n <= terms@.len(),
            acc == residue(partial_sum(terms@, z@, n as int)),
        decreases terms@.len() - n,
    {
        let (column, k) = terms[n];
        let x = value_at(z, column);
        proof {
            lemma_add_term(partial_sum(terms@, z@, n as int), k as int, x as int);
        }
        acc = field_add(acc, field_mul(coefficient(k), x));
        n = n + 1;
    }
    acc
}

/// Whether an assignment meets a constraint.
pub fn check_constraint<C: Fn([u64; 4], [u64; 8]) -> [u64; 4]>(
    constraint: &Constraint,
    z: &Vec<u64>,
    compress: &C,
) -> (ok: bool)
    requires
        is_compression(*compress),
    ensures
        ok == constraint@.holds(z@, compression_of(*compress)),
{
    proof {
        reveal(Equation::holds);
    }
    match constraint {
        Constraint::Product { a, b, c, .. } => {
            let x = evaluate(a, z);
            let y = evaluate(b, z);
            let w = evaluate(c, z);
            proof {
                lemma_product(sum(a@, z@), sum(b@, z@), sum(c@, z@));
            }
            field_mul(x, y) == w
        },
        Constraint::Compression { gadget, .. } => {
            let p = gadget.previous;
            let b = gadget.block;
            let o = gadget.output;
            let previous = [value_at(z, p[0]), value_at(z, p[1]), value_at(z, p[2]), value_at(z, p[3])];
            let block = [
                value_at(z, b[0]),
                value_at(z, b[1]),
                value_at(z, b[2]),
                value_at(z, b[3]),
                value_at(z, b[4]),
                value_at(z, b[5]),
                value_at(z, b[6]),
                value_at(z, b[7]),
            ];
            let image = commit_block(previous, block, compress);
            canonical(value_at(z, o[0])) == image[0] && canonical(value_at(z, o[1])) == image[1]
                && canonical(value_at(z, o[2])) == image[2] && canonical(value_at(z, o[3]))
                == image[3]
        },
    }
}

/// The first constraint that an assignment fails.
pub fn check_rowwise<C: Fn([u64; 4], [u64; 8]) -> [u64; 4]>(
    rows: &Vec<Constraint>,
    z: &Vec<u64>,
    compress: &C,
) -> (failure: Option<usize>)
    requires
        is_compression(*compress),
    ensures
        failure == first_failure(equations(rows@), z@, compression_of(*compress), 0),
        failure is None <==> satisfied(equations(rows@), z@, compression_of(*compress)),
        failure matches Some(row) ==> row < rows@.len(),
{
    let ghost h = compression_of(*compress);
    let ghost eqs = equations(rows@);
    let count: usize = rows.len();
    proof {
        lemma_first_failure(eqs, z@, h, 0);
    }
    let mut i: usize = 0;
    while i < count
        invariant
            count == rows@.len(),
            is_compression(*compress),
            h == compression_of(*compress),
            eqs == equations(rows@),
            i <= rows@.len(),
            first_failure(eqs, z@, h, 0) == first_failure(eqs, z@, h, i as int),
        decreases rows@.len() - i,
    {
        if !check_constraint(&rows[i], z, compress) {
            return Some(i);
        }
        i = i + 1;
    }
    None
}

} // verus!
