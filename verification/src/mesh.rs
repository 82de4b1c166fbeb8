//! Lattice mesh layout: expands the coarse per-rod material sequence into
//! fine cells, removes the doubled moderator cells at interior assembly
//! boundaries, and trims half a moderator rod's cells from each end of the
//! slab. Cell widths are uniform per material, so the whole layout is
//! fixed by the material of each cell; the widths themselves are attached
//! by the caller.
use vstd::prelude::*;
use vstd::arithmetic::div_mod::lemma_multiply_divide_lt;
use vstd::arithmetic::mul::lemma_mul_inequality;
use vstd::arithmetic::mul::lemma_mul_is_commutative;
use vstd::arithmetic::mul::lemma_mul_is_distributive_add_other_way;
use vstd::arithmetic::mul::lemma_mul_upper_bound;

verus! {

/// Materials 0 and 1 are fuel variants; everything else is moderator or
/// control material.
pub open spec fn is_fuel(m: u8) -> bool {
    m == 0 || m == 1
}

/// Number of cells one rod of material `m` is subdivided into.
pub open spec fn rod_cells(m: u8, mpfr: nat, mpwr: nat) -> nat {
    if is_fuel(m) {
        mpfr
    } else {
        mpwr
    }
}

/// `n` cells of material `m`.
pub open spec fn cell_run(m: u8, n: nat) -> Seq<u8> {
    Seq::new(n, |i: int| m)
}

/// Rod-by-rod expansion of the coarse material sequence into cells.
pub open spec fn expand_rods(rods: Seq<u8>, mpfr: nat, mpwr: nat) -> Seq<u8>
    decreases rods.len(),
{
    if rods.len() == 0 {
        Seq::empty()
    } else {
        cell_run(rods[0], rod_cells(rods[0], mpfr, mpwr)) + expand_rods(
            rods.drop_first(),
            mpfr,
            mpwr,
        )
    }
}

/// The cell removed by one step of the interior-boundary cleanup: the
/// builder re-computes this from the current, shrinking length.
pub open spec fn center_index(index1: int, len: int, numass: int) -> int {
    (index1 * len) / numass
}

/// One interior boundary's cleanup pass: removes `count` cells one by one,
/// each at the index the current length gives.
pub open spec fn remove_pass(s: Seq<u8>, index1: int, numass: int, count: nat) -> Seq<u8>
    decreases count,
{
    if count == 0 {
        s
    } else {
        remove_pass(
            s.remove(center_index(index1, s.len() as int, numass)),
            index1,
            numass,
            (count - 1) as nat,
        )
    }
}

/// Cleanup passes for the interior assembly boundaries `index1 .. numass`.
pub open spec fn remove_boundaries(s: Seq<u8>, index1: int, numass: int, mpwr: nat) -> Seq<u8>
    decreases numass - index1,
{
    if index1 >= numass {
        s
    } else {
        remove_boundaries(remove_pass(s, index1, numass, mpwr), index1 + 1, numass, mpwr)
    }
}

/// `half` cells trimmed from each end of the slab.
pub open spec fn trim_ends(s: Seq<u8>, half: nat) -> Seq<u8> {
    if 2 * half <= s.len() {
        s.subrange(half as int, s.len() - half)
    } else {
        Seq::empty()
    }
}

/// The finished cell layout: expansion, interior-boundary cleanup, and the
/// two half-moderator-rod end trims.
pub open spec fn mesh_layout(rods: Seq<u8>, mpfr: nat, mpwr: nat, numass: nat) -> Seq<u8> {
    trim_ends(
        remove_boundaries(expand_rods(rods, mpfr, mpwr), 1, numass as int, mpwr),
        (mpwr / 2) as nat,
    )
}

/// The indices of the fuel cells of a layout, in increasing order.
pub open spec fn fuel_cell_indices(s: Seq<u8>) -> Seq<int>
    decreases s.len(),
{
    if s.len() == 0 {
        Seq::empty()
    } else if is_fuel(s.last()) {
        fuel_cell_indices(s.drop_last()).push(s.len() - 1)
    } else {
        fuel_cell_indices(s.drop_last())
    }
}

/// Expanding one more rod appends that rod's cells to the expansion.
proof fn lemma_expand_take_succ(rods: Seq<u8>, mpfr: nat, mpwr: nat, i: int)
    requires
        0 <= i < rods.len(),
    ensures
        expand_rods(rods.take(i + 1), mpfr, mpwr) == expand_rods(rods.take(i), mpfr, mpwr)
            + cell_run(rods[i], rod_cells(rods[i], mpfr, mpwr)),
    decreases i,
{
    if i == 0 {
        assert(rods.take(1).drop_first() =~= rods.take(0));
        assert(expand_rods(rods.take(0), mpfr, mpwr) == Seq::<u8>::empty());
        assert(expand_rods(rods.take(1), mpfr, mpwr) =~= expand_rods(rods.take(0), mpfr, mpwr)
            + cell_run(rods[0], rod_cells(rods[0], mpfr, mpwr)));
    } else {
        let tail = rods.drop_first();
        assert(rods.take(i + 1).drop_first() =~= tail.take(i));
        assert(rods.take(i).drop_first() =~= tail.take(i - 1));
        lemma_expand_take_succ(tail, mpfr, mpwr, i - 1);
        assert(rods.take(i + 1)[0] == rods[0] && rods.take(i)[0] == rods[0]);
        assert(tail[i - 1] == rods[i]);
        let head = cell_run(rods[0], rod_cells(rods[0], mpfr, mpwr));
        assert(expand_rods(rods.take(i + 1), mpfr, mpwr) == head + (expand_rods(
            tail.take(i - 1),
            mpfr,
            mpwr,
        ) + cell_run(rods[i], rod_cells(rods[i], mpfr, mpwr))));
        assert(head + (expand_rods(tail.take(i - 1), mpfr, mpwr) + cell_run(
            rods[i],
            rod_cells(rods[i], mpfr, mpwr),
        )) =~= (head + expand_rods(tail.take(i - 1), mpfr, mpwr)) + cell_run(
            rods[i],
            rod_cells(rods[i], mpfr, mpwr),
        ));
        assert(expand_rods(rods.take(i), mpfr, mpwr) == head + expand_rods(
            tail.take(i - 1),
            mpfr,
            mpwr,
        ));
    }
}

/// The fuel-cell index list is exact: each entry is the index of a fuel
/// cell, the entries increase strictly, and the index of every fuel cell
/// appears. Spawn sampling that draws uniformly from this list therefore
/// weights each fuel cell equally and never selects a moderator cell.
pub proof fn lemma_fuel_indices_exact(s: Seq<u8>)
    ensures
        forall|k: int|
            0 <= k < fuel_cell_indices(s).len() ==> 0 <= #[trigger] fuel_cell_indices(s)[k]
                < s.len() && is_fuel(s[fuel_cell_indices(s)[k]]),
        forall|k1: int, k2: int|
            0 <= k1 < k2 < fuel_cell_indices(s).len() ==> fuel_cell_indices(s)[k1]
                < fuel_cell_indices(s)[k2],
        forall|j: int| 0 <= j < s.len() && is_fuel(s[j]) ==> fuel_cell_indices(s).contains(j),
    decreases s.len(),
{
    if s.len() > 0 {
        let prefix = s.drop_last();
        lemma_fuel_indices_exact(prefix);
        assert(forall|j: int| 0 <= j < prefix.len() ==> prefix[j] == s[j]);
        assert forall|j: int| 0 <= j < s.len() && is_fuel(s[j]) implies fuel_cell_indices(
            s,
        ).contains(j) by {
            if j < s.len() - 1 {
                assert(is_fuel(prefix[j]));
                assert(fuel_cell_indices(prefix).contains(j));
                let k = choose|k: int|
                    0 <= k < fuel_cell_indices(prefix).len() && #[trigger] fuel_cell_indices(
                        prefix,
                    )[k] == j;
                assert(fuel_cell_indices(prefix)[k] == j);
                if is_fuel(s.last()) {
                    assert(fuel_cell_indices(s)[k] == j);
                } else {
                    assert(fuel_cell_indices(s)[k] == j);
                }
            } else {
                assert(is_fuel(s.last()));
                assert(fuel_cell_indices(s).last() == j);
            }
        }
    }
}

/// A prefix of the rod sequence expands to at most as many cells as a
/// longer prefix.
proof fn lemma_expand_len_monotonic(rods: Seq<u8>, mpfr: nat, mpwr: nat, i: int, j: int)
    requires
        0 <= i <= j <= rods.len(),
    ensures
        expand_rods(rods.take(i), mpfr, mpwr).len() <= expand_rods(rods.take(j), mpfr, mpwr).len(),
    decreases j - i,
{
    if i < j {
        lemma_expand_take_succ(rods, mpfr, mpwr, j - 1);
        lemma_expand_len_monotonic(rods, mpfr, mpwr, i, j - 1);
    }
}

/// Checks a lattice description before the mesh is built and hands back the
/// expanded cell count: the answer is the count exactly when every step of
/// the builder stays within machine bounds and enough cells exist for the
/// interior-boundary cleanup and the two end trims; otherwise nothing.
pub fn mesh_plan(matid: &Vec<u8>, mpfr: usize, mpwr: usize, numass: u8) -> (r: Option<usize>)
    ensures
        match r {
            Some(n) => {
                &&& n == expand_rods(matid@, mpfr as nat, mpwr as nat).len()
                &&& 1 <= numass
                &&& (numass - 1) * mpwr + 2 * ((mpwr / 2) as int) <= n
                &&& numass * n <= usize::MAX
            },
            None => {
                ||| numass == 0
                ||| (numass - 1) * mpwr + 2 * ((mpwr / 2) as int) > expand_rods(
                    matid@,
                    mpfr as nat,
                    mpwr as nat,
                ).len()
                ||| numass * expand_rods(matid@, mpfr as nat, mpwr as nat).len() > usize::MAX
            },
        },
{
    let ghost full = expand_rods(matid@, mpfr as nat, mpwr as nat);
    if numass == 0 {
        return None;
    }
    let mut acc: usize = 0;
    for i in 0..matid.len()
        invariant
            acc == expand_rods(matid@.take(i as int), mpfr as nat, mpwr as nat).len(),
            numass >= 1,
            full == expand_rods(matid@, mpfr as nat, mpwr as nat),
    {
        let m = matid[i];
        let c = if m <= 1 {
            mpfr
        } else {
            mpwr
        };
        proof {
            lemma_expand_take_succ(matid@, mpfr as nat, mpwr as nat, i as int);
        }
        if acc > usize::MAX - c {
            proof {
                assert(matid@.take(matid@.len() as int) =~= matid@);
                lemma_expand_len_monotonic(
                    matid@,
                    mpfr as nat,
                    mpwr as nat,
                    i as int + 1,
                    matid@.len() as int,
                );
                lemma_mul_inequality(1, numass as int, full.len() as int);
            }
            return None;
        }
        acc = acc + c;
    }
    proof {
        assert(matid@.take(matid@.len() as int) =~= matid@);
    }
    // acc now holds the full expanded cell count.
    let trims = 2 * (mpwr / 2);
    proof {
        vstd::arithmetic::div_mod::lemma_fundamental_div_mod(mpwr as int, 2);
    }
    let removed = match (numass as usize - 1).checked_mul(mpwr) {
        Some(x) => x,
        None => {
            return None;
        },
    };
    let needed = match removed.checked_add(trims) {
        Some(x) => x,
        None => {
            return None;
        },
    };
    if needed > acc {
        return None;
    }
    match (numass as usize).checked_mul(acc) {
        Some(_) => Some(acc),
        None => None,
    }
}

/// Builds the fine cell layout from the coarse per-rod material sequence,
/// together with the indices of the fuel cells, which weight the Monte
/// Carlo spawn sampling by fuel volume.
pub fn mesh_gen(matid: Vec<u8>, mpfr: usize, mpwr: usize, numass: u8) -> (r: (Vec<u8>, Vec<usize>))
    requires
        1 <= numass,
        (numass - 1) * mpwr + 2 * ((mpwr / 2) as int) <= expand_rods(
            matid@,
            mpfr as nat,
            mpwr as nat,
        ).len(),
        numass * expand_rods(matid@, mpfr as nat, mpwr as nat).len() <= usize::MAX,
    ensures
        r.0@ == mesh_layout(matid@, mpfr as nat, mpwr as nat, numass as nat),
        r.1@.map_values(|v: usize| v as int) == fuel_cell_indices(r.0@),
{
    let ghost expanded = expand_rods(matid@, mpfr as nat, mpwr as nat);
    let ghost en = expanded.len() as int;

    // Expand each rod into its run of identical cells.
    let mut cells: Vec<u8> = Vec::new();
    for i in 0..matid.len()
        invariant
            cells@ == expand_rods(matid@.take(i as int), mpfr as nat, mpwr as nat),
    {
        let m = matid[i];
        let n = if m <= 1 {
            mpfr
        } else {
            mpwr
        };
        let ghost before = cells@;
        let mut j: usize = 0;
        while j < n
            invariant
                j <= n,
                n == rod_cells(m, mpfr as nat, mpwr as nat),
                cells@ == before + cell_run(m, j as nat),
            decreases n - j,
        {
            cells.push(m);
            proof {
                assert(before + cell_run(m, (j + 1) as nat) =~= (before + cell_run(
                    m,
                    j as nat,
                )).push(m));
            }
            j = j + 1;
        }
        proof {
            lemma_expand_take_succ(matid@, mpfr as nat, mpwr as nat, i as int);
            assert(cells@ =~= expand_rods(matid@.take(i as int + 1), mpfr as nat, mpwr as nat));
        }
    }
    proof {
        assert(matid@.take(matid@.len() as int) =~= matid@);
    }

    // Remove the doubled moderator cells at each interior assembly boundary.
    let ghost goal = remove_boundaries(expanded, 1, numass as int, mpwr as nat);
    let mut index1: usize = 1;
    while index1 < numass as usize
        invariant
            1 <= index1 <= numass,
            cells@.len() == en - (index1 - 1) * mpwr,
            remove_boundaries(cells@, index1 as int, numass as int, mpwr as nat) == goal,
            (numass - 1) * mpwr + 2 * ((mpwr / 2) as int) <= en,
            numass * en <= usize::MAX,
            en == expanded.len(),
        decreases numass - index1,
    {
        let mut j: usize = 0;
        while j < mpwr
            invariant
                j <= mpwr,
                1 <= index1 < numass,
                cells@.len() == en - (index1 - 1) * mpwr - j,
                remove_boundaries(
                    remove_pass(cells@, index1 as int, numass as int, (mpwr - j) as nat),
                    index1 as int + 1,
                    numass as int,
                    mpwr as nat,
                ) == goal,
                (numass - 1) * mpwr + 2 * ((mpwr / 2) as int) <= en,
                numass * en <= usize::MAX,
                en == expanded.len(),
            decreases mpwr - j,
        {
            proof {
                // The cells removed so far stay strictly below the total
                // budget, so at least one cell is left.
                lemma_mul_is_distributive_add_other_way(mpwr as int, index1 as int - 1, 1);
                lemma_mul_inequality(index1 as int, numass as int - 1, mpwr as int);
                lemma_mul_upper_bound(index1 as int, numass as int, cells@.len() as int, en);
            }
            let idx = (index1 * cells.len()) / (numass as usize);
            proof {
                lemma_mul_inequality(index1 as int, numass as int - 1, cells@.len() as int);
                lemma_mul_is_distributive_add_other_way(cells@.len() as int, numass as int - 1, 1);
                lemma_mul_is_commutative(numass as int, cells@.len() as int);
                lemma_multiply_divide_lt(
                    index1 as int * cells@.len() as int,
                    numass as int,
                    cells@.len() as int,
                );
            }
            cells.remove(idx);
            j = j + 1;
        }
        proof {
            lemma_mul_is_distributive_add_other_way(mpwr as int, index1 as int - 1, 1);
        }
        index1 = index1 + 1;
    }

    // Trim half a moderator rod's cells from each end.
    let half = mpwr / 2;
    let len = cells.len();
    proof {
        lemma_mul_inequality(0, numass as int - 1, mpwr as int);
    }
    let mut out: Vec<u8> = Vec::new();
    let mut i: usize = half;
    while i < len - half
        invariant
            half <= i <= len - half,
            2 * half <= len,
            len == cells@.len(),
            out@ == cells@.subrange(half as int, i as int),
        decreases len - half - i,
    {
        let c = cells[i];
        out.push(c);
        proof {
            assert(cells@.subrange(half as int, i as int + 1) =~= cells@.subrange(
                half as int,
                i as int,
            ).push(cells@[i as int]));
        }
        i = i + 1;
    }
    proof {
        assert(out@ == trim_ends(cells@, half as nat));
    }

    // Collect the fuel-cell indices in increasing order.
    let mut fuel: Vec<usize> = Vec::new();
    let n_cells = out.len();
    let mut k: usize = 0;
    while k < n_cells
        invariant
            k <= n_cells,
            n_cells == out@.len(),
            fuel@.map_values(|v: usize| v as int) == fuel_cell_indices(out@.take(k as int)),
        decreases n_cells - k,
    {
        let ghost prefix = out@.take(k as int);
        if out[k] <= 1 {
            fuel.push(k);
        }
        proof {
            assert(out@.take(k as int + 1).drop_last() =~= prefix);
            assert(out@.take(k as int + 1).last() == out@[k as int]);
            if is_fuel(out@[k as int]) {
                assert(fuel@.map_values(|v: usize| v as int) =~= fuel_cell_indices(
                    out@.take(k as int + 1),
                ));
            }
        }
        k = k + 1;
    }
    proof {
        assert(out@.take(out@.len() as int) =~= out@);
    }
    (out, fuel)
}

/// Number of fuel entries of a sequence, be it rods or cells.
pub open spec fn count_fuel(s: Seq<u8>) -> nat
    decreases s.len(),
{
    if s.len() == 0 {
        0
    } else {
        count_fuel(s.drop_last()) + if is_fuel(s.last()) {
            1nat
        } else {
            0nat
        }
    }
}

/// Fuel counting distributes over concatenation.
proof fn lemma_count_fuel_add(a: Seq<u8>, b: Seq<u8>)
    ensures
        count_fuel(a + b) == count_fuel(a) + count_fuel(b),
    decreases b.len(),
{
    if b.len() == 0 {
        assert(a + b =~= a);
    } else {
        assert((a + b).drop_last() =~= a + b.drop_last());
        assert((a + b).last() == b.last());
        lemma_count_fuel_add(a, b.drop_last());
    }
}

/// A run of one material is all fuel or no fuel.
proof fn lemma_count_fuel_run(m: u8, n: nat)
    ensures
        count_fuel(cell_run(m, n)) == if is_fuel(m) {
            n
        } else {
            0nat
        },
    decreases n,
{
    if n > 0 {
        assert(cell_run(m, n).drop_last() =~= cell_run(m, (n - 1) as nat));
        assert(cell_run(m, n).last() == m);
        lemma_count_fuel_run(m, (n - 1) as nat);
    }
}

/// Unfolding fuel counting at the front instead of the back.
proof fn lemma_count_fuel_first(s: Seq<u8>)
    requires
        s.len() > 0,
    ensures
        count_fuel(s) == count_fuel(s.drop_first()) + if is_fuel(s[0]) {
            1nat
        } else {
            0nat
        },
{
    assert(s =~= cell_run(s[0], 1) + s.drop_first());
    lemma_count_fuel_add(cell_run(s[0], 1), s.drop_first());
    lemma_count_fuel_run(s[0], 1);
}

/// The expansion of a rod sequence holds `mpfr` cells for each fuel rod and
/// `mpwr` cells for each moderator rod, and its fuel cells are exactly the
/// fuel rods' cells.
pub proof fn lemma_expand_counts(rods: Seq<u8>, mpfr: nat, mpwr: nat)
    ensures
        expand_rods(rods, mpfr, mpwr).len() == mpfr * count_fuel(rods) + mpwr * (rods.len()
            - count_fuel(rods)),
        count_fuel(expand_rods(rods, mpfr, mpwr)) == mpfr * count_fuel(rods),
    decreases rods.len(),
{
    broadcast use vstd::arithmetic::mul::group_mul_basics;

    if rods.len() == 0 {
        assert(mpfr * count_fuel(rods) == 0);
        assert(mpwr * (rods.len() - count_fuel(rods)) == 0);
    } else {
        let tail = rods.drop_first();
        let run = cell_run(rods[0], rod_cells(rods[0], mpfr, mpwr));
        let e = expand_rods(rods, mpfr, mpwr);
        let cf = count_fuel(rods);
        let cft = count_fuel(tail);
        lemma_expand_counts(tail, mpfr, mpwr);
        lemma_count_fuel_add(run, expand_rods(tail, mpfr, mpwr));
        lemma_count_fuel_run(rods[0], rod_cells(rods[0], mpfr, mpwr));
        lemma_count_fuel_first(rods);
        lemma_count_fuel_le_len(tail);
        assert(e == run + expand_rods(tail, mpfr, mpwr));
        assert(e.len() == rod_cells(rods[0], mpfr, mpwr) + expand_rods(tail, mpfr, mpwr).len());
        if is_fuel(rods[0]) {
            assert(cf == cft + 1);
            assert(mpfr * cf == mpfr * (cft + 1));
            assert(mpfr * (cft as int + 1) == mpfr * cft + mpfr * 1) by {
                vstd::arithmetic::mul::lemma_mul_is_distributive_add(
                    mpfr as int,
                    cft as int,
                    1,
                );
            }
            assert(rods.len() - cf == tail.len() - cft);
        } else {
            assert(cf == cft);
            assert(rods.len() - cf == (tail.len() - cft) + 1);
            assert(mpwr * ((tail.len() - cft) + 1) == mpwr * (tail.len() - cft) + mpwr * 1) by {
                vstd::arithmetic::mul::lemma_mul_is_distributive_add(
                    mpwr as int,
                    (tail.len() - cft) as int,
                    1,
                );
            }
        }
    }
}

/// No sequence holds more fuel entries than entries.
proof fn lemma_count_fuel_le_len(s: Seq<u8>)
    ensures
        count_fuel(s) <= s.len(),
    decreases s.len(),
{
    if s.len() > 0 {
        lemma_count_fuel_le_len(s.drop_last());
    }
}

/// For a single symmetric assembly — one whose rod sequence starts and ends
/// with a moderator rod — the built mesh holds the sum of the per-rod
/// subdivision counts minus the two trimmed half-moderator-cell counts, and
/// all `mpfr` cells of every fuel rod survive the trims. Multiplying the
/// two counts by the fuel and moderator cell widths gives the total mesh
/// width: rod diameter times the fuel-rod count plus pitch times the
/// moderator-rod count, minus the two trimmed half cells.
pub proof fn lemma_single_assembly_mesh_counts(rods: Seq<u8>, mpfr: nat, mpwr: nat)
    requires
        rods.len() > 0,
        !is_fuel(rods.first()),
        !is_fuel(rods.last()),
    ensures
        mesh_layout(rods, mpfr, mpwr, 1).len() == mpfr * count_fuel(rods) + mpwr * (rods.len()
            - count_fuel(rods)) - 2 * (mpwr / 2),
        count_fuel(mesh_layout(rods, mpfr, mpwr, 1)) == mpfr * count_fuel(rods),
{
    let e = expand_rods(rods, mpfr, mpwr);
    let h = (mpwr / 2) as nat;
    lemma_expand_counts(rods, mpfr, mpwr);
    lemma_count_fuel_le_len(rods);
    assert(remove_boundaries(e, 1, 1, mpwr) == e);
    // The first rod is moderator, so the expansion opens with mpwr
    // moderator cells and the front trim removes only moderator cells.
    assert(e == cell_run(rods[0], mpwr) + expand_rods(rods.drop_first(), mpfr, mpwr));
    assert(e.len() >= mpwr);
    assert(2 * h <= mpwr) by {
        vstd::arithmetic::div_mod::lemma_fundamental_div_mod(mpwr as int, 2);
    }
    let trimmed = e.subrange(h as int, e.len() - h);
    assert(mesh_layout(rods, mpfr, mpwr, 1) == trimmed);
    assert(trimmed.len() == e.len() - 2 * h);
    // Split the expansion into front trim, kept middle, and back trim.
    let front = e.subrange(0, h as int);
    let back = e.subrange(e.len() - h, e.len() as int);
    assert(e =~= front + trimmed + back);
    lemma_count_fuel_add(front + trimmed, back);
    lemma_count_fuel_add(front, trimmed);
    assert(front =~= cell_run(rods[0], h));
    lemma_count_fuel_run(rods[0], h);
    // The last rod is moderator too, so the expansion closes with mpwr
    // moderator cells and the back trim removes only moderator cells.
    let last = rods.len() - 1;
    assert(rods.take(rods.len() as int) =~= rods);
    lemma_expand_take_succ(rods, mpfr, mpwr, last);
    let prefix = expand_rods(rods.take(last), mpfr, mpwr);
    assert(e == prefix + cell_run(rods[last], mpwr));
    assert(back =~= cell_run(rods[last], h)) by {
        assert(e.len() == prefix.len() + mpwr);
        assert(forall|k: int|
            0 <= k < h ==> back[k] == (prefix + cell_run(rods[last], mpwr))[e.len() - h + k]);
    }
    lemma_count_fuel_run(rods[last], h);
}

} // verus!
