//! Integer bookkeeping of the Monte Carlo driver: the partition of one
//! generation's histories into contiguous per-thread ranges, and the mesh
//! index step taken when a flight crosses into a neighbouring cell. The
//! flight arithmetic itself works on floating-point state and lives with
//! the driver, outside this library.
use vstd::prelude::*;
use vstd::arithmetic::div_mod::lemma_div_pos_is_pos;
use vstd::arithmetic::div_mod::lemma_fundamental_div_mod;
use vstd::arithmetic::div_mod::lemma_mod_bound;
use vstd::arithmetic::mul::lemma_mul_inequality;
use vstd::arithmetic::mul::lemma_mul_is_distributive_add_other_way;

verus! {

/// First history of thread `i`'s contiguous range.
pub open spec fn part_start(i: int, histories: int, threads: int) -> int {
    i * (histories / threads)
}

/// One past the last history of thread `i`'s range; the last thread
/// absorbs the division remainder.
pub open spec fn part_end(i: int, histories: int, threads: int) -> int {
    if i == threads - 1 {
        histories
    } else {
        (i + 1) * (histories / threads)
    }
}

/// Splits one generation's histories into `threads` contiguous, near-equal
/// ranges: thread `i` runs histories `r.0[i] .. r.1[i]`.
pub fn partition_histories(histories: usize, threads: usize) -> (r: (Vec<usize>, Vec<usize>))
    requires
        1 <= threads,
    ensures
        r.0.len() == threads,
        r.1.len() == threads,
        forall|i: int|
            0 <= i < threads ==> r.0[i] == part_start(i, histories as int, threads as int),
        forall|i: int|
            0 <= i < threads ==> r.1[i] == part_end(i, histories as int, threads as int),
{
    let q = histories / threads;
    proof {
        lemma_fundamental_div_mod(histories as int, threads as int);
        lemma_mod_bound(histories as int, threads as int);
    }
    let mut starts: Vec<usize> = Vec::new();
    let mut ends: Vec<usize> = Vec::new();
    let mut acc: usize = 0;
    for i in 0..threads
        invariant
            q == histories as int / threads as int,
            histories as int == threads as int * q + histories as int % threads as int,
            0 <= histories as int % threads as int,
            starts.len() == i,
            ends.len() == i,
            acc == i * q,
            acc <= histories,
            forall|j: int|
                0 <= j < i ==> starts[j] == part_start(j, histories as int, threads as int),
            forall|j: int|
                0 <= j < i ==> ends[j] == part_end(j, histories as int, threads as int),
    {
        starts.push(acc);
        proof {
            lemma_mul_inequality(i as int + 1, threads as int, q as int);
            lemma_mul_is_distributive_add_other_way(q as int, i as int, 1);
        }
        if i + 1 < threads {
            acc = acc + q;
            ends.push(acc);
        } else {
            ends.push(histories);
            acc = acc + q;
        }
    }
    (starts, ends)
}

/// Every history index lies in at least one thread range of the partition.
/// Together with `lemma_partition_disjoint` this says the ranges cover each
/// history exactly once, so merging per-thread tallies by summation adds
/// each history's path-length contribution exactly once, as a serial tally
/// over all histories would.
pub proof fn lemma_partition_covers(histories: int, threads: int, h: int)
    requires
        1 <= threads,
        0 <= h < histories,
    ensures
        exists|i: int|
            0 <= i < threads && #[trigger] part_start(i, histories, threads) <= h < part_end(
                i,
                histories,
                threads,
            ),
{
    let q = histories / threads;
    lemma_fundamental_div_mod(histories, threads);
    lemma_mod_bound(histories, threads);
    if q == 0 {
        let w = threads - 1;
        assert(part_start(w, histories, threads) == 0);
        assert(0 <= w < threads && part_start(w, histories, threads) <= h < part_end(
            w,
            histories,
            threads,
        ));
    } else {
        let i0 = h / q;
        lemma_fundamental_div_mod(h, q);
        lemma_mod_bound(h, q);
        if i0 >= threads - 1 {
            let w = threads - 1;
            lemma_mul_inequality(w, i0, q);
            assert(part_start(w, histories, threads) == w * q);
            assert(q * i0 == i0 * q) by {
                vstd::arithmetic::mul::lemma_mul_is_commutative(q, i0);
            }
            assert(w * q <= i0 * q <= h);
            assert(0 <= w < threads && part_start(w, histories, threads) <= h < part_end(
                w,
                histories,
                threads,
            ));
        } else {
            assert(q * i0 == i0 * q && q * (i0 + 1) == (i0 + 1) * q) by {
                vstd::arithmetic::mul::lemma_mul_is_commutative(q, i0);
                vstd::arithmetic::mul::lemma_mul_is_commutative(q, i0 + 1);
            }
            assert(q * (i0 + 1) == q * i0 + q) by {
                vstd::arithmetic::mul::lemma_mul_is_distributive_add(q, i0, 1);
            }
            assert(0 <= i0 < threads && part_start(i0, histories, threads) <= h < part_end(
                i0,
                histories,
                threads,
            ));
        }
    }
}

/// No history index lies in two distinct ranges of the partition.
pub proof fn lemma_partition_disjoint(histories: int, threads: int, h: int, i: int, j: int)
    requires
        1 <= threads,
        0 <= histories,
        0 <= i < threads,
        0 <= j < threads,
        part_start(i, histories, threads) <= h < part_end(i, histories, threads),
        part_start(j, histories, threads) <= h < part_end(j, histories, threads),
    ensures
        i == j,
{
    let q = histories / threads;
    lemma_div_pos_is_pos(histories, threads);
    if i < j {
        lemma_mul_inequality(i + 1, j, q);
        assert(false);
    }
    if j < i {
        lemma_mul_inequality(j + 1, i, q);
        assert(false);
    }
}

/// The mesh index after a flight crosses into the neighbouring cell: one
/// step towards the right boundary when the direction cosine is
/// non-negative, one step towards the left boundary otherwise.
pub fn next_mesh_index(mesh_index: usize, mu_nonneg: bool, n_cells: usize) -> (r: usize)
    requires
        mesh_index < n_cells,
        mu_nonneg ==> mesh_index + 1 < n_cells,
        !mu_nonneg ==> 1 <= mesh_index,
    ensures
        r == if mu_nonneg {
            mesh_index + 1
        } else {
            mesh_index - 1
        },
        r < n_cells,
{
    if mu_nonneg {
        mesh_index + 1
    } else {
        mesh_index - 1
    }
}

} // verus!
