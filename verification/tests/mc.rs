use nraps::next_mesh_index;
use nraps::partition_histories;
use nraps::scat_index;
use nraps::xs_index;
use nraps::Solver;

#[test]
fn partition_even_and_remainder() {
    let (starts, ends) = partition_histories(10, 3);
    assert_eq!(starts, vec![0usize, 3, 6]);
    assert_eq!(ends, vec![3usize, 6, 10]);

    let (starts, ends) = partition_histories(12, 4);
    assert_eq!(starts, vec![0usize, 3, 6, 9]);
    assert_eq!(ends, vec![3usize, 6, 9, 12]);
}

#[test]
fn partition_more_threads_than_histories() {
    let (starts, ends) = partition_histories(5, 8);
    assert_eq!(starts, vec![0usize; 8]);
    assert_eq!(ends, vec![0usize, 0, 0, 0, 0, 0, 0, 5]);
}

#[test]
fn partition_covers_every_history() {
    // Each of the N histories lies in exactly one thread range, so summing
    // the per-thread tallies counts every history's contribution once.
    for &(histories, threads) in &[(10usize, 3usize), (7, 7), (100, 6), (3, 1)] {
        let (starts, ends) = partition_histories(histories, threads);
        for h in 0..histories {
            let owners = (0..threads).filter(|&i| starts[i] <= h && h < ends[i]).count();
            assert_eq!(owners, 1);
        }
    }
}

#[test]
fn mesh_index_steps() {
    assert_eq!(next_mesh_index(1, true, 4), 2);
    assert_eq!(next_mesh_index(1, false, 4), 0);
    assert_eq!(next_mesh_index(2, true, 4), 3);
}

#[test]
fn xs_table_indexing() {
    // desired_xs = table[matid + mattypes * energy]
    assert_eq!(xs_index(0, 4, 0), 0);
    assert_eq!(xs_index(2, 4, 1), 6);
    assert_eq!(xs_index(3, 4, 1), 7);
}

#[test]
fn scattering_matrix_indexing() {
    // row-major over [material][source energy][destination energy]
    assert_eq!(scat_index(0, 2, 0, 1), 1);
    assert_eq!(scat_index(2, 2, 1, 0), 10);
    assert_eq!(scat_index(3, 2, 1, 1), 15);
    // The in-group element the diffusion matrix diagonal subtracts:
    // (groups + 1) * energy + groups^2 * material.
    let (groups, material, energy) = (4u8, 2u8, 3u8);
    assert_eq!(
        scat_index(material, groups, energy, energy),
        ((groups as usize + 1) * energy as usize) + (groups as usize * groups as usize) * material as usize
    );
}

#[test]
fn solver_variants_exist() {
    let chosen = Solver::SR;
    assert!(matches!(chosen, Solver::SR));
    assert!(!matches!(Solver::LinAlg, Solver::Jacobian));
    assert!(!matches!(Solver::Gaussian, Solver::Jacobian));
}
