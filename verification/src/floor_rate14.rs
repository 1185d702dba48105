//! The rate-1/4 code of the floor: a parity-check matrix whose parity half accumulates.
//!
//! Every check holds one data column, chosen by a shuffle with a fixed seed, and the
//! parity columns of itself and of the check before it. The parity half is thereby unit
//! lower bidiagonal, and encoding needs no elimination.
use rand::seq::SliceRandom;
use rand::SeedableRng;
use rand_chacha::ChaCha8Rng;
use vstd::prelude::*;

verus! {

/// Columns of the matrix.
pub const N: usize = 2048;

/// Data columns.
pub const K: usize = 512;

/// Checks.
pub const M: usize = 1536;

/// Checks that hold each data column.
pub const COL_WEIGHT: usize = 3;

/// Seed of the shuffle.
pub const SEED: u64 = 0xFEC0_F100_0014;

/// A sparse parity-check matrix: for each check the columns that it holds, in order.
#[derive(Debug, Clone, PartialEq, Eq)]
pub struct ParityCheckMatrix {
    /// Columns.
    pub n: usize,
    /// Data columns, which come first.
    pub k: usize,
    /// The columns of each check.
    pub rows: Vec<Vec<usize>>,
}

/// What a shuffle of `items` by `rand`'s `SliceRandom` gives with `rand_chacha`'s
/// `ChaCha8Rng` seeded from `seed`.
pub uninterp spec fn shuffled(items: Seq<usize>, seed: u64) -> Seq<usize>;

/// Calls `rand::seq::SliceRandom::shuffle` with a generator made by
/// `rand_chacha::ChaCha8Rng::seed_from_u64`. Claimed: the order is a function of the
/// items and the seed, and only swaps are made.
#[verifier::external_body]
fn shuffle(items: Vec<usize>, seed: u64) -> (r: Vec<usize>)
    requires
        items@.len() <= u32::MAX,
    ensures
        r@ == shuffled(items@, seed),
        r@.len() == items@.len(),
        r@.to_multiset() == items@.to_multiset(),
{
    let mut r = items;
    r.shuffle(&mut ChaCha8Rng::seed_from_u64(seed));
    r
}

/// Every data column as often as it has checks, in order.
pub open spec fn data_edges() -> Seq<usize> {
    Seq::new(M as nat, |i: int| (i / (COL_WEIGHT as int)) as usize)
}

/// The columns of check `i`, whose data column is `edge`.
pub open spec fn row(edge: usize, i: int) -> Seq<usize> {
    if i == 0 {
        seq![edge, K]
    } else {
        seq![edge, (K + i - 1) as usize, (K + i) as usize]
    }
}

/// The checks whose data columns are `edges`.
pub open spec fn rows_of(edges: Seq<usize>) -> Seq<Seq<usize>> {
    Seq::new(edges.len(), |i: int| row(edges[i], i))
}

/// The rows of a matrix.
pub open spec fn row_views(rows: Seq<Vec<usize>>) -> Seq<Seq<usize>> {
    Seq::new(rows.len(), |i: int| rows[i]@)
}

/// Lay out the checks for a choice of data columns, one for each check.
pub fn lay_out(edges: &Vec<usize>) -> (rows: Vec<Vec<usize>>)
    requires
        K + edges@.len() <= usize::MAX,
        forall|i: int| 0 <= i < edges@.len() ==> #[trigger] edges@[i] < K,
    ensures
        row_views(rows@) == rows_of(edges@),
{
    let mut rows: Vec<Vec<usize>> = Vec::new();
    let mut i: usize = 0;
    while i < edges.len()
        invariant
            K + edges@.len() <= usize::MAX,
            i <= edges@.len(),
            row_views(rows@) == rows_of(edges@).take(i as int),
        decreases edges@.len() - i,
    {
        let mut r: Vec<usize> = Vec::new();
        r.push(edges[i]);
        if i > 0 {
            r.push(K + i - 1);
        }
        r.push(K + i);
        assert(r@ =~= row(edges@[i as int], i as int));
        let ghost before = rows@;
        rows.push(r);
        proof {
            assert(before.len() == i) by {
                assert(row_views(before).len() == rows_of(edges@).take(i as int).len());
            }
            assert forall|j: int| 0 <= j < i implies rows@[j]@ == rows_of(edges@)[j] by {
                assert(row_views(before)[j] == rows_of(edges@).take(i as int)[j]);
            }
            assert(row_views(rows@) =~= rows_of(edges@).take(i + 1));
        }
        i = i + 1;
    }
    assert(row_views(rows@) =~= rows_of(edges@));
    rows
}

/// Build the matrix of the floor's code. It is the same every time.
pub fn build() -> (h: ParityCheckMatrix)
    ensures
        h.n == N,
        h.k == K,
        h.rows@.len() == M,
        row_views(h.rows@) == rows_of(shuffled(data_edges(), SEED)),
        shuffled(data_edges(), SEED).to_multiset() == data_edges().to_multiset(),
{
    let mut edges: Vec<usize> = Vec::new();
    let mut i: usize = 0;
    while i < M
        invariant
            i <= M,
            edges@ == data_edges().take(i as int),
        decreases M - i,
    {
        edges.push(i / COL_WEIGHT);
        assert(edges@ =~= data_edges().take(i + 1));
        i = i + 1;
    }
    assert(edges@ =~= data_edges());
    let order = shuffle(edges, SEED);
    proof {
        lemma_edges_are_data(order@);
    }
    let rows = lay_out(&order);
    assert(row_views(rows@).len() == M);
    ParityCheckMatrix { n: N, k: K, rows }
}

/// A rearrangement of the data edges holds data columns only.
proof fn lemma_edges_are_data(edges: Seq<usize>)
    requires
        edges.to_multiset() == data_edges().to_multiset(),
    ensures
        forall|i: int| 0 <= i < edges.len() ==> #[trigger] edges[i] < K,
{
    assert forall|i: int| 0 <= i < edges.len() implies #[trigger] edges[i] < K by {
        edges.to_multiset_ensures();
        data_edges().to_multiset_ensures();
        assert(edges.contains(edges[i]));
        assert(edges.to_multiset().count(edges[i]) > 0);
        assert(data_edges().to_multiset().count(edges[i]) > 0);
        assert(data_edges().contains(edges[i]));
    }
}

/// How many of the checks hold a column.
pub open spec fn degree(rows: Seq<Seq<usize>>, column: usize) -> nat
    decreases rows.len(),
{
    if rows.len() == 0 {
        0
    } else {
        degree(rows.drop_last(), column) + if rows.last().contains(column) {
            1nat
        } else {
            0nat
        }
    }
}

/// A data column is held as often as it occurs among the edges.
proof fn lemma_degree(edges: Seq<usize>, column: usize)
    requires
        column < K,
        K + edges.len() <= usize::MAX,
    ensures
        degree(rows_of(edges), column) == edges.to_multiset().count(column),
    decreases edges.len(),
{
    if edges.len() == 0 {
        edges.to_multiset_ensures();
        assert(edges.to_multiset().len() == 0);
    } else {
        let rest = edges.drop_last();
        lemma_degree(rest, column);
        assert(rows_of(edges).drop_last() =~= rows_of(rest));
        assert(edges =~= rest.push(edges.last()));
        rest.to_multiset_ensures();
        assert(edges.to_multiset() =~= rest.to_multiset().insert(edges.last()));
        let r = row(edges.last(), edges.len() - 1);
        assert(rows_of(edges).last() == r);
        assert(r[0] == edges.last());
        assert(r.contains(column) <==> edges.last() == column) by {
            if r.contains(column) {
                let j = choose|j: int| 0 <= j < r.len() && r[j] == column;
                assert(j == 0);
            }
        }
    }
}

/// The number of times a column occurs among the first data edges.
proof fn lemma_occurrences(n: int, column: usize)
    requires
        0 <= n <= M,
        column < K,
    ensures
        data_edges().take(n).to_multiset().count(column) == if n <= 3 * column {
            0
        } else if n >= 3 * column + 3 {
            3
        } else {
            n - 3 * column
        },
    decreases n,
{
    let s = data_edges().take(n);
    if n == 0 {
        s.to_multiset_ensures();
        assert(s.to_multiset().len() == 0);
    } else {
        lemma_occurrences(n - 1, column);
        let rest = data_edges().take(n - 1);
        assert(s =~= rest.push(data_edges()[n - 1]));
        rest.to_multiset_ensures();
        assert(s.to_multiset() =~= rest.to_multiset().insert(data_edges()[n - 1]));
    }
}

/// Every data column is held by exactly three checks, however the edges were shuffled.
pub proof fn data_columns_have_degree_three(edges: Seq<usize>, column: usize)
    requires
        edges.to_multiset() == data_edges().to_multiset(),
        column < K,
    ensures
        degree(rows_of(edges), column) == COL_WEIGHT,
{
    assert(edges.len() == M) by {
        edges.to_multiset_ensures();
        data_edges().to_multiset_ensures();
    }
    lemma_degree(edges, column);
    lemma_occurrences(M as int, column);
    assert(data_edges().take(M as int) =~= data_edges());
}

/// Every check holds one data column, its own parity column and, after the first, that
/// of the check before it; no other.
pub proof fn parity_half_is_dual_diagonal(edges: Seq<usize>, i: int, column: usize)
    requires
        edges.to_multiset() == data_edges().to_multiset(),
        0 <= i < edges.len(),
    ensures
        edges[i] < K,
        rows_of(edges)[i].contains(column) <==> column == edges[i] || column == K + i || (i > 0
            && column == K + i - 1),
{
    lemma_edges_are_data(edges);
    assert(edges.len() == M) by {
        edges.to_multiset_ensures();
        data_edges().to_multiset_ensures();
    }
    let r = row(edges[i], i);
    assert(r[0] == edges[i]);
    assert(r[r.len() - 1] == K + i);
    if i > 0 {
        assert(r[1] == K + i - 1);
    }
}

/// The sum, without carry, of a word's bits in the given columns.
pub open spec fn sum(word: Seq<bool>, columns: Seq<usize>) -> bool
    decreases columns.len(),
{
    if columns.len() == 0 {
        false
    } else {
        sum(word, columns.drop_last()) != word[columns.last() as int]
    }
}

/// The word is a codeword: every check sums to zero.
pub open spec fn is_codeword(rows: Seq<Seq<usize>>, word: Seq<bool>) -> bool {
    forall|i: int| 0 <= i < rows.len() ==> !sum(word, #[trigger] rows[i])
}

/// The parity bit of check `i`: the data bits of the checks so far, accumulated.
pub open spec fn parity_bit(edges: Seq<usize>, data: Seq<bool>, i: nat) -> bool
    decreases i,
{
    let d = data[edges[i as int] as int];
    if i == 0 {
        d
    } else {
        d != parity_bit(edges, data, (i - 1) as nat)
    }
}

/// The codeword of a data word.
pub open spec fn codeword(edges: Seq<usize>, data: Seq<bool>) -> Seq<bool> {
    data + Seq::new(edges.len(), |i: int| parity_bit(edges, data, i as nat))
}

/// A check sums its data bit and its parity bits.
proof fn lemma_row_sum(edges: Seq<usize>, word: Seq<bool>, i: int)
    requires
        0 <= i < edges.len(),
        edges.len() <= M,
    ensures
        sum(word, row(edges[i], i)) == ((word[edges[i] as int] != word[K + i]) != (i > 0 && word[K
            + i - 1])),
{
    let r = row(edges[i], i);
    if i == 0 {
        let a = r.drop_last();
        assert(a.drop_last() =~= Seq::empty());
        assert(a.last() == edges[i]);
        assert(sum(word, a.drop_last()) == false);
        assert(sum(word, a) == word[edges[i] as int]);
        assert(sum(word, r) == (sum(word, a) != word[r.last() as int]));
        assert(r.last() == K);
    } else {
        let b = r.drop_last();
        let a = b.drop_last();
        assert(a.drop_last() =~= Seq::empty());
        assert(a.last() == edges[i]);
        assert(b.last() == K + i - 1);
        assert(sum(word, a.drop_last()) == false);
        assert(sum(word, a) == word[edges[i] as int]);
        assert(sum(word, b) == (sum(word, a) != word[b.last() as int]));
        assert(sum(word, r) == (sum(word, b) != word[r.last() as int]));
        assert(r.last() == K + i);
    }
}

/// The code is systematic and needs no elimination: every data word has a codeword that
/// starts with it, made by accumulation, and no other.
pub proof fn every_data_word_has_one_codeword(edges: Seq<usize>, data: Seq<bool>, word: Seq<bool>)
    requires
        edges.to_multiset() == data_edges().to_multiset(),
        data.len() == K,
        word.len() == N,
        word.take(K as int) == data,
    ensures
        codeword(edges, data).len() == N,
        codeword(edges, data).take(K as int) == data,
        is_codeword(rows_of(edges), word) <==> word == codeword(edges, data),
{
    lemma_edges_are_data(edges);
    assert(edges.len() == M) by {
        edges.to_multiset_ensures();
        data_edges().to_multiset_ensures();
    }
    let c = codeword(edges, data);
    assert(c.take(K as int) =~= data);
    assert forall|i: int| 0 <= i < M implies !sum(c, #[trigger] rows_of(edges)[i]) by {
        lemma_row_sum(edges, c, i);
        assert(c[edges[i] as int] == data[edges[i] as int]);
        assert(c[K + i] == parity_bit(edges, data, i as nat));
        if i > 0 {
            assert(c[K + i - 1] == parity_bit(edges, data, (i - 1) as nat));
        }
    }
    if is_codeword(rows_of(edges), word) {
        assert forall|j: int| 0 <= j < N implies word[j] == c[j] by {
            if j < K {
                assert(word.take(K as int)[j] == word[j]);
            } else {
                lemma_parity_is_forced(edges, data, word, (j - K) as nat);
            }
        }
        assert(word =~= c);
    }
}

/// The checks leave no choice of a parity bit.
proof fn lemma_parity_is_forced(edges: Seq<usize>, data: Seq<bool>, word: Seq<bool>, i: nat)
    requires
        edges.len() == M,
        forall|j: int| 0 <= j < edges.len() ==> #[trigger] edges[j] < K,
        data.len() == K,
        word.len() == N,
        word.take(K as int) == data,
        is_codeword(rows_of(edges), word),
        i < M,
    ensures
        word[K + i] == parity_bit(edges, data, i),
    decreases i,
{
    if i > 0 {
        lemma_parity_is_forced(edges, data, word, (i - 1) as nat);
    }
    lemma_row_sum(edges, word, i as int);
    assert(!sum(word, rows_of(edges)[i as int]));
    assert(edges[i as int] < K);
    assert(word.take(K as int)[edges[i as int] as int] == word[edges[i as int] as int]);
}

/// The code has a quarter of its 2048 columns for data and a check for each other column.
/// Before the shuffle the columns stand in order, each three times in a row; and the columns
/// of a check stand in ascending order.
pub proof fn code_is_a_quarter_data(edges: Seq<usize>, i: int)
    ensures
        N == 2048 && 4 * K == N && K + M == N && COL_WEIGHT == 3 && SEED == 0xFEC0_F100_0014,
        data_edges().len() == 1536,
        0 <= i < 1536 ==> 3 * data_edges()[i] <= i < 3 * data_edges()[i] + 3,
        edges.to_multiset() == data_edges().to_multiset() && 0 <= i < edges.len() ==> {
            let r = rows_of(edges)[i];
            &&& r.len() == (if i == 0 {
                2int
            } else {
                3
            })
            &&& r[0] == edges[i] && r[0] < 512
            &&& r.last() == 512 + i
            &&& i > 0 ==> r[1] == 511 + i
        },
{
    if edges.to_multiset() == data_edges().to_multiset() {
        lemma_edges_are_data(edges);
        edges.to_multiset_ensures();
        data_edges().to_multiset_ensures();
    }
}

} // verus!
