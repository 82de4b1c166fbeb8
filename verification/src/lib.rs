//! Core of a 1-D slab-reactor lattice eigenvalue solver: a permuted
//! linear-congruential random number generator, the lattice mesh layout,
//! cross-section table indexing, input scanning, and the history
//! partitioning used by the parallel Monte Carlo driver.
use vstd::prelude::*;

mod input;
mod mc;
mod mesh;
mod rng;
mod xs;

pub use input::get_index;
pub use input::parse_unsigned;
pub use input::scan_ascii_chunk;
pub use input::skip_line;
pub use mesh::count_fuel;
pub use mesh::expand_rods;
pub use mesh::fuel_cell_indices;
pub use mesh::is_fuel;
pub use mesh::lemma_expand_counts;
pub use mesh::lemma_fuel_indices_exact;
pub use mesh::lemma_single_assembly_mesh_counts;
pub use mesh::mesh_gen;
pub use mesh::mesh_layout;
pub use mesh::mesh_plan;
pub use mc::lemma_partition_covers;
pub use mc::lemma_partition_disjoint;
pub use mc::next_mesh_index;
pub use mc::partition_histories;
pub use rng::PCG32;
pub use rng::Prn32;
pub use xs::lemma_xs_index_bijective;
pub use xs::scat_index;
pub use xs::xs_index;

verus! {

/// Strategy selector for the deterministic diffusion solve.
pub enum Solver {
    LinAlg,
    Gaussian,
    Jacobian,
    SR,
}

} // verus!
