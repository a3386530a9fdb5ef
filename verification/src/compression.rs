//! The compression function of an event chain.
//!
//! The chains are built over a compression function that the caller supplies:
//! four field elements of the chain so far and the eight of a block give the four
//! elements of the chain afterwards. Everything here holds for any such function.

use vstd::prelude::*;

use crate::field::{canonical, residue, FIELD_MODULUS};

verus! {

/// Four zero words: where every chain starts.
pub const ZERO_CHAIN: [u64; 4] = [0, 0, 0, 0];

/// Whether the caller's function takes every input and always gives the same
/// output for it.
pub open spec fn is_compression<C: Fn([u64; 4], [u64; 8]) -> [u64; 4]>(compress: C) -> bool {
    &&& forall|chain: [u64; 4], block: [u64; 8]| #[trigger]
        call_requires(compress, (chain, block))
    &&& forall|chain: [u64; 4], block: [u64; 8], x: [u64; 4], y: [u64; 4]| #[trigger]
        call_ensures(compress, (chain, block), x) && #[trigger] call_ensures(
            compress,
            (chain, block),
            y,
        ) ==> x == y
}

/// The caller's function as a mathematical function.
pub open spec fn compression_of<C: Fn([u64; 4], [u64; 8]) -> [u64; 4]>(compress: C) -> spec_fn(
    [u64; 4],
    [u64; 8],
) -> [u64; 4] {
    |chain: [u64; 4], block: [u64; 8]|
        choose|output: [u64; 4]| call_ensures(compress, (chain, block), output)
}

/// Canonical representatives of four field elements.
pub open spec fn reduced4(x: [u64; 4]) -> [u64; 4] {
    [residue(x[0] as int), residue(x[1] as int), residue(x[2] as int), residue(x[3] as int)]
}

/// Canonical representatives of eight field elements.
pub open spec fn reduced8(x: [u64; 8]) -> [u64; 8] {
    [
        residue(x[0] as int),
        residue(x[1] as int),
        residue(x[2] as int),
        residue(x[3] as int),
        residue(x[4] as int),
        residue(x[5] as int),
        residue(x[6] as int),
        residue(x[7] as int),
    ]
}

/// A chain extended by a block.
pub open spec fn extended(
    h: spec_fn([u64; 4], [u64; 8]) -> [u64; 4],
    chain: [u64; 4],
    block: [u64; 8],
) -> [u64; 4] {
    reduced4(h(reduced4(chain), reduced8(block)))
}

/// A chain extended by the first `n` of some blocks.
pub open spec fn extended_by(
    h: spec_fn([u64; 4], [u64; 8]) -> [u64; 4],
    chain: [u64; 4],
    blocks: Seq<[u64; 8]>,
    n: int,
) -> [u64; 4]
    decreases n,
{
    if n <= 0 {
        chain
    } else {
        extended(h, extended_by(h, chain, blocks, n - 1), blocks[n - 1])
    }
}

/// Whether the compression collides at block `k` of two sequences of blocks: it takes
/// different inputs there, the chains so far and the blocks, to the same chain.
pub open spec fn collides(
    h: spec_fn([u64; 4], [u64; 8]) -> [u64; 4],
    a: Seq<[u64; 8]>,
    b: Seq<[u64; 8]>,
    k: int,
) -> bool {
    let x = extended_by(h, ZERO_CHAIN, a, k);
    let y = extended_by(h, ZERO_CHAIN, b, k);
    &&& extended(h, x, a[k]) == extended(h, y, b[k])
    &&& reduced4(x) != reduced4(y) || reduced8(a[k]) != reduced8(b[k])
}

/// A chain that was extended is canonical.
proof fn lemma_reduced_again(x: [u64; 4])
    ensures
        reduced4(reduced4(x)) == reduced4(x),
{
    let p = FIELD_MODULUS as int;
    assert forall|i: int| 0 <= i < 4 implies residue(residue(#[trigger] x[i] as int) as int)
        == residue(x[i] as int) by {
        vstd::arithmetic::div_mod::lemma_mod_bound(x[i] as int, p);
        vstd::arithmetic::div_mod::lemma_mod_twice(x[i] as int, p);
    }
    assert(reduced4(reduced4(x))@ =~= reduced4(x)@);
}

proof fn lemma_chains_apart(
    h: spec_fn([u64; 4], [u64; 8]) -> [u64; 4],
    a: Seq<[u64; 8]>,
    b: Seq<[u64; 8]>,
    n: int,
)
    requires
        0 <= n <= a.len(),
        a.len() == b.len(),
        forall|k: int| 0 <= k < n ==> !#[trigger] collides(h, a, b, k),
    ensures
        reduced4(extended_by(h, ZERO_CHAIN, a, n)) == reduced4(extended_by(h, ZERO_CHAIN, b, n))
            <==> forall|k: int| 0 <= k < n ==> reduced8(#[trigger] a[k]) == reduced8(b[k]),
    decreases n,
{
    if n > 0 {
        lemma_chains_apart(h, a, b, n - 1);
        let x = extended_by(h, ZERO_CHAIN, a, n - 1);
        let y = extended_by(h, ZERO_CHAIN, b, n - 1);
        lemma_reduced_again(h(reduced4(x), reduced8(a[n - 1])));
        lemma_reduced_again(h(reduced4(y), reduced8(b[n - 1])));
        assert(!collides(h, a, b, n - 1));
        if reduced4(extended_by(h, ZERO_CHAIN, a, n)) == reduced4(
            extended_by(h, ZERO_CHAIN, b, n),
        ) {
            assert(reduced8(a[n - 1]) == reduced8(b[n - 1]));
        }
        if forall|k: int| 0 <= k < n ==> reduced8(#[trigger] a[k]) == reduced8(b[k]) {
            assert(reduced8(a[n - 1]) == reduced8(b[n - 1]));
        }
    }
}

/// A chain tells blocks apart as far as the compression does not collide on them: as many
/// blocks give the same chain exactly where they are the same.
pub proof fn law_chains_tell_blocks_apart(
    h: spec_fn([u64; 4], [u64; 8]) -> [u64; 4],
    a: Seq<[u64; 8]>,
    b: Seq<[u64; 8]>,
)
    requires
        a.len() == b.len(),
        forall|k: int| 0 <= k < a.len() ==> !#[trigger] collides(h, a, b, k),
    ensures
        reduced4(extended_by(h, ZERO_CHAIN, a, a.len() as int)) == reduced4(
            extended_by(h, ZERO_CHAIN, b, b.len() as int),
        ) <==> forall|k: int| 0 <= k < a.len() ==> reduced8(#[trigger] a[k]) == reduced8(b[k]),
{
    lemma_chains_apart(h, a, b, a.len() as int);
}

/// A chain is compressed with a block over field elements: whatever represents them, the
/// compression takes the canonical words of the chain and of the block, each in its place,
/// and the words that it gives are made canonical.
pub proof fn law_chains_are_compressed_over_field_elements(
    h: spec_fn([u64; 4], [u64; 8]) -> [u64; 4],
    chain: [u64; 4],
    block: [u64; 8],
    input: [u64; 4],
    words: [u64; 8],
)
    requires
        forall|i: int| 0 <= i < 4 ==> #[trigger] input[i] == chain[i] as int % FIELD_MODULUS as int,
        forall|i: int| 0 <= i < 8 ==> #[trigger] words[i] == block[i] as int % FIELD_MODULUS as int,
    ensures
        forall|i: int|
            0 <= i < 4 ==> #[trigger] extended(h, chain, block)[i] == h(input, words)[i] as int
                % FIELD_MODULUS as int,
{
    let p = FIELD_MODULUS as int;
    assert forall|x: u64| #[trigger] residue(x as int) == x as int % p by {
        vstd::arithmetic::div_mod::lemma_mod_bound(x as int, p);
    }
    assert forall|i: int| 0 <= i < 4 implies reduced4(chain)[i] == #[trigger] input[i] by {
        assert(residue(chain[i] as int) == chain[i] as int % p);
    }
    assert forall|i: int| 0 <= i < 8 implies reduced8(block)[i] == #[trigger] words[i] by {
        assert(residue(block[i] as int) == block[i] as int % p);
    }
    assert(reduced4(chain)@ =~= input@);
    assert(reduced4(chain) == input);
    assert(reduced8(block)@ =~= words@);
    assert(reduced8(block) == words);
    let image = h(input, words);
    assert forall|i: int| 0 <= i < 4 implies #[trigger] extended(h, chain, block)[i]
        == image[i] as int % p by {
        assert(residue(image[i] as int) == image[i] as int % p);
    }
}

/// Extend a chain by a block.
pub fn commit_block<C: Fn([u64; 4], [u64; 8]) -> [u64; 4]>(
    chain: [u64; 4],
    block: [u64; 8],
    compress: &C,
) -> (output: [u64; 4])
    requires
        is_compression(*compress),
    ensures
        output == extended(compression_of(*compress), chain, block),
{
    let input = [canonical(chain[0]), canonical(chain[1]), canonical(chain[2]), canonical(chain[3])];
    let words = [
        canonical(block[0]),
        canonical(block[1]),
        canonical(block[2]),
        canonical(block[3]),
        canonical(block[4]),
        canonical(block[5]),
        canonical(block[6]),
        canonical(block[7]),
    ];
    let image = compress(input, words);
    [canonical(image[0]), canonical(image[1]), canonical(image[2]), canonical(image[3])]
}

} // verus!
