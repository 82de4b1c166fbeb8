//! Flat-table index arithmetic for the cross-section model. Tables are laid
//! out per (material, energy group), and the scattering matrix per
//! (material, source group, destination group); these functions centralise
//! the arithmetic that every table access repeats.
use vstd::prelude::*;
use vstd::arithmetic::mul::lemma_mul_inequality;
use vstd::arithmetic::mul::lemma_mul_is_distributive_add_other_way;
use vstd::arithmetic::mul::lemma_mul_upper_bound;

verus! {

/// Flat index of `(matid, energy)` in a per-(material, group) table:
/// materials vary fastest, groups stride by the material-type count.
pub fn xs_index(matid: u8, mattypes: u8, energy: u8) -> (r: usize)
    ensures
        r == matid + mattypes * energy,
{
    proof {
        lemma_mul_upper_bound(mattypes as int, 255, energy as int, 255);
    }
    matid as usize + mattypes as usize * energy as usize
}

/// Flat index of `(matid, source, dest)` in the row-major scattering matrix:
/// each material owns a `groups * groups` block, each source group a row.
pub fn scat_index(matid: u8, energygroups: u8, source: u8, dest: u8) -> (r: usize)
    ensures
        r == (energygroups * energygroups) * matid + energygroups * source + dest,
{
    proof {
        lemma_mul_upper_bound(energygroups as int, 255, energygroups as int, 255);
        lemma_mul_upper_bound(
            energygroups as int * energygroups as int,
            255int * 255,
            matid as int,
            255,
        );
        lemma_mul_upper_bound(energygroups as int, 255, source as int, 255);
    }
    (energygroups as usize * energygroups as usize) * matid as usize
        + energygroups as usize * source as usize
        + dest as usize
}

/// A `(matid, energy)` pair within table bounds lands inside the table, and
/// no two in-bounds pairs share a flat index.
pub proof fn lemma_xs_index_bijective(mattypes: u8, m1: u8, e1: u8, m2: u8, e2: u8)
    requires
        m1 < mattypes,
        m2 < mattypes,
    ensures
        m1 + mattypes * e1 < mattypes * (e1 + 1),
        m1 + mattypes * e1 == m2 + mattypes * e2 ==> m1 == m2 && e1 == e2,
{
    assert(mattypes * e1 + mattypes == mattypes * (e1 + 1)) by {
        lemma_mul_is_distributive_add_other_way(mattypes as int, e1 as int, 1);
    }
    if m1 + mattypes * e1 == m2 + mattypes * e2 && e1 != e2 {
        if e1 < e2 {
            lemma_mul_inequality(e1 as int + 1, e2 as int, mattypes as int);
            assert(mattypes * (e1 + 1) == mattypes * e1 + mattypes) by {
                lemma_mul_is_distributive_add_other_way(mattypes as int, e1 as int, 1);
            }
        } else {
            lemma_mul_inequality(e2 as int + 1, e1 as int, mattypes as int);
            assert(mattypes * (e2 + 1) == mattypes * e2 + mattypes) by {
                lemma_mul_is_distributive_add_other_way(mattypes as int, e2 as int, 1);
            }
        }
    }
}

} // verus!
