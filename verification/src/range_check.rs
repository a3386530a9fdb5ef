//! Ranges of bounded columns.
//!
//! A Boolean column is constrained directly. A wider column is decomposed into
//! bits, lowest first, in the columns that [`bit_of`] sets aside for it.

use vstd::prelude::*;

use crate::layout::{
    bit_column, bit_of, bit_owner, bit_place, column_name, column_width, lemma_bit_of,
    lemma_bit_owner, name_of, width_of, COLUMN_COUNT, MAX_WIDTH, ROW_WIDTH,
};
use crate::relation::{linear, product, terms1, Builder, Equation, Term};
use vstd::arithmetic::power2::{lemma_pow2_strictly_increases, lemma2_to64, lemma_pow2_unfold, pow2};

verus! {

/// A column holds zero or one.
pub open spec fn boolean_row(label: &'static str, column: usize) -> Equation {
    product(label, seq![(column, 1i64)], seq![(column, 1i64)], seq![(column, 1i64)])
}

/// A column and its weighted bits, `n` terms in all.
pub open spec fn recomposition(column: int, n: int) -> Seq<Term> {
    Seq::new(
        n as nat,
        |k: int|
            if k == 0 {
                (column as usize, 1i64)
            } else {
                (bit_of(column, k - 1) as usize, (-(pow2((k - 1) as nat) as int)) as i64)
            },
    )
}

/// A column is the number that its bits stand for.
pub open spec fn recomposition_row(column: int) -> Equation {
    linear(name_of(column), recomposition(column, width_of(column) as int + 1))
}

/// Rows that bound a column.
pub open spec fn column_rows(column: int) -> Seq<Equation> {
    if width_of(column) == 0 {
        seq![]
    } else if width_of(column) == 1 {
        seq![boolean_row(name_of(column), column as usize)]
    } else {
        Seq::new(
            width_of(column),
            |j: int| boolean_row(name_of(column), bit_of(column, j) as usize),
        ).push(recomposition_row(column))
    }
}

/// Rows that bound the first `n` columns.
pub open spec fn range_rows(n: int) -> Seq<Equation>
    decreases n,
{
    if n <= 0 {
        seq![]
    } else {
        range_rows(n - 1) + column_rows(n - 1)
    }
}

fn require_boolean(b: &mut Builder, label: &'static str, column: usize)
    ensures
        final(b)@ == old(b)@.push(boolean_row(label, column)),
{
    b.push_row(label, terms1(column, 1), terms1(column, 1), terms1(column, 1));
}

/// The terms of [`recomposition_row`].
fn recomposition_terms(column: usize, width: usize) -> (terms: Vec<Term>)
    requires
        column < COLUMN_COUNT,
        1 < width == width_of(column as int),
        width <= MAX_WIDTH,
    ensures
        terms@ == recomposition(column as int, width + 1),
{
    let mut terms: Vec<Term> = Vec::new();
    terms.push((column, 1));
    let mut weight: i64 = 1;
    let mut j: usize = 0;
    proof {
        lemma2_to64();
    }
    assert(terms@ =~= recomposition(column as int, 1));
    while j < width
        invariant
            column < COLUMN_COUNT,
            1 < width == width_of(column as int),
            j <= width <= MAX_WIDTH,
            weight == pow2(j as nat),
            pow2(32) == 0x1_0000_0000,
            terms@ == recomposition(column as int, j + 1),
        decreases width - j,
    {
        proof {
            lemma_pow2_unfold((j + 1) as nat);
            lemma_pow2_strictly_increases(j as nat, 32);
        }
        terms.push((bit_column(column, j), -weight));
        weight = 2 * weight;
        j = j + 1;
        assert(terms@ =~= recomposition(column as int, j + 1));
    }
    terms
}

fn push_column(b: &mut Builder, column: usize)
    requires
        column < COLUMN_COUNT,
    ensures
        final(b)@ == old(b)@ + column_rows(column as int),
{
    let width = column_width(column);
    let label = column_name(column);
    if width == 1 {
        require_boolean(b, label, column);
    } else if width > 1 {
        let mut j: usize = 0;
        while j < width
            invariant
                column < COLUMN_COUNT,
                1 < width == width_of(column as int),
                width <= MAX_WIDTH,
                label == name_of(column as int),
                j <= width,
                b@ == old(b)@ + Seq::new(
                    j as nat,
                    |k: int| boolean_row(label, bit_of(column as int, k) as usize),
                ),
            decreases width - j,
        {
            require_boolean(b, label, bit_column(column, j));
            j = j + 1;
            assert(b@ =~= old(b)@ + Seq::new(
                j as nat,
                |k: int| boolean_row(label, bit_of(column as int, k) as usize),
            ));
        }
        b.push_linear_zero(label, recomposition_terms(column, width));
    }
    assert(b@ =~= old(b)@ + column_rows(column as int));
}

/// Add the rows that bound every column.
pub(crate) fn constraints(b: &mut Builder)
    ensures
        final(b)@ == old(b)@ + range_rows(COLUMN_COUNT as int),
{
    let mut c: usize = 0;
    assert(b@ =~= old(b)@ + range_rows(0));
    while c < COLUMN_COUNT
        invariant
            c <= COLUMN_COUNT,
            b@ == old(b)@ + range_rows(c as int),
        decreases COLUMN_COUNT - c,
    {
        push_column(b, c);
        c = c + 1;
        assert(b@ =~= old(b)@ + range_rows(c as int));
    }
}

/// Bit `j` of a value.
pub open spec fn bit(value: u64, j: nat) -> u64 {
    ((value as nat / pow2(j)) % 2) as u64
}

/// A row with the decomposition bits of its first `n` columns assigned.
pub open spec fn with_bits(row: Seq<u64>, n: int) -> Seq<u64> {
    Seq::new(
        row.len(),
        |i: int|
            if COLUMN_COUNT <= i && bit_owner(i) < n {
                bit(row[bit_owner(i)], bit_place(i) as nat)
            } else {
                row[i]
            },
    )
}

/// Assign the decomposition bits of every bounded column: the low bits of its
/// value, whether or not the value is in range.
pub fn assign_bits(row: &mut Vec<u64>)
    requires
        old(row)@.len() == ROW_WIDTH,
    ensures
        final(row)@ == with_bits(old(row)@, COLUMN_COUNT as int),
{
    let ghost start = row@;
    let mut c: usize = 0;
    assert(row@ =~= with_bits(start, 0));
    while c < COLUMN_COUNT
        invariant
            c <= COLUMN_COUNT,
            start.len() == ROW_WIDTH,
            row@ == with_bits(start, c as int),
        decreases COLUMN_COUNT - c,
    {
        let width = column_width(c);
        if width > 1 {
            let value = row[c];
            let mut rest: u64 = value;
            let mut j: usize = 0;
            let ghost before = row@;
            proof {
                lemma2_to64();
                assert(value as nat / pow2(0) == value) by {
                    vstd::arithmetic::div_mod::lemma_div_basics(value as int);
                }
            }
            while j < width
                invariant
                    c < COLUMN_COUNT,
                    width == width_of(c as int),
                    1 < width <= MAX_WIDTH,
                    start.len() == ROW_WIDTH,
                    before == with_bits(start, c as int),
                    value == start[c as int],
                    j <= width,
                    rest == value as nat / pow2(j as nat),
                    row@.len() == ROW_WIDTH,
                    forall|i: int|
                        0 <= i < ROW_WIDTH ==> #[trigger] row@[i] == (if bit_of(c as int, 0) <= i
                            < bit_of(c as int, j as int) {
                            bit(value, (i - bit_of(c as int, 0)) as nat)
                        } else {
                            before[i]
                        }),
                decreases width - j,
            {
                let position = bit_column(c, j);
                row[position] = rest % 2;
                proof {
                    lemma_pow2_unfold((j + 1) as nat);
                    vstd::arithmetic::power2::lemma_pow2_pos(j as nat);
                    vstd::arithmetic::div_mod::lemma_div_denominator(
                        value as int,
                        pow2(j as nat) as int,
                        2,
                    );
                    assert(pow2(j as nat) * 2 == pow2((j + 1) as nat));
                }
                rest = rest / 2;
                j = j + 1;
            }
        }
        c = c + 1;
        assert forall|i: int| 0 <= i < ROW_WIDTH implies #[trigger] row@[i] == with_bits(
            start,
            c as int,
        )[i] by {
            if COLUMN_COUNT <= i {
                lemma_bit_owner(i);
            }
            if width > 1 && bit_of(c - 1, 0) <= i < bit_of(c - 1, width as int) {
                lemma_bit_of(c - 1, i - bit_of(c - 1, 0));
            }
        }
        assert(row@ =~= with_bits(start, c as int));
    }
}

} // verus!
