use nraps::mesh_gen;
use nraps::mesh_plan;

/// Plain re-computation of the builder's steps, kept alongside the tests as
/// the reference for expected layouts.
fn reference_layout(rods: &[u8], mpfr: usize, mpwr: usize, numass: usize) -> Vec<u8> {
    let mut cells: Vec<u8> = Vec::new();
    for &m in rods {
        let n = if m <= 1 { mpfr } else { mpwr };
        for _ in 0..n {
            cells.push(m);
        }
    }
    for index1 in 1..numass {
        for _ in 0..mpwr {
            cells.remove((index1 * cells.len()) / numass);
        }
    }
    let half = mpwr / 2;
    cells.drain(0..half);
    cells.truncate(cells.len() - half);
    cells
}

#[test]
fn single_assembly_layout() {
    let rods = vec![2u8, 0, 2, 0, 2];
    let (cells, fuel) = mesh_gen(rods.clone(), 2, 2, 1);
    assert_eq!(cells, vec![2u8, 0, 0, 2, 2, 0, 0, 2]);
    assert_eq!(fuel, vec![1usize, 2, 5, 6]);
    assert_eq!(cells, reference_layout(&rods, 2, 2, 1));
}

#[test]
fn single_assembly_counts_match_formula() {
    // Symmetric single assembly: 2 fuel rods, 3 moderator rods, 2 cells per
    // fuel rod, 2 per moderator rod, one half-moderator cell trimmed at
    // each end.
    let rods = vec![2u8, 0, 2, 0, 2];
    let (mpfr, mpwr) = (2usize, 2usize);
    let (cells, fuel) = mesh_gen(rods.clone(), mpfr, mpwr, 1);
    let fuel_rods = rods.iter().filter(|&&m| m <= 1).count();
    let moderator_rods = rods.len() - fuel_rods;
    // Cell count: the sum of per-rod subdivisions minus the two trims.
    assert_eq!(cells.len(), mpfr * fuel_rods + mpwr * moderator_rods - 2 * (mpwr / 2));
    // Every fuel rod keeps all its cells.
    assert_eq!(fuel.len(), mpfr * fuel_rods);
    // Total width: rod diameter per fuel rod plus pitch per moderator rod,
    // minus the two trimmed half moderator cells.
    let roddia = 1.0f64;
    let rodpitch = 0.5f64;
    let delta_fuel = roddia / mpfr as f64;
    let delta_water = rodpitch / mpwr as f64;
    let water_cells = cells.len() - fuel.len();
    let total = fuel.len() as f64 * delta_fuel + water_cells as f64 * delta_water;
    let formula = roddia * fuel_rods as f64 + rodpitch * moderator_rods as f64
        - 2.0 * (mpwr / 2) as f64 * delta_water;
    assert!((total - formula).abs() < 1e-9);
}

#[test]
fn interior_boundary_cells_removed() {
    let rods = vec![2u8, 0, 2, 0, 2, 2, 0, 2, 0, 2];
    let (cells, _) = mesh_gen(rods.clone(), 2, 2, 2);
    assert_eq!(cells, reference_layout(&rods, 2, 2, 2));
    // Two moderator cells removed at the interior boundary, one trimmed at
    // each end.
    assert_eq!(cells.len(), 20 - 2 - 2);
}

#[test]
fn uneven_subdivisions() {
    let rods = vec![3u8, 1, 3];
    let (cells, fuel) = mesh_gen(rods.clone(), 3, 4, 1);
    assert_eq!(cells, reference_layout(&rods, 3, 4, 1));
    assert_eq!(cells, vec![3u8, 3, 1, 1, 1, 3, 3]);
    assert_eq!(fuel, vec![2usize, 3, 4]);
}

#[test]
fn plan_accepts_valid_lattice() {
    let rods = vec![2u8, 0, 2, 0, 2];
    assert_eq!(mesh_plan(&rods, 2, 2, 1), Some(10));
    assert_eq!(mesh_plan(&rods, 2, 2, 2), Some(10));
}

#[test]
fn plan_rejects_degenerate_lattice() {
    let rods = vec![2u8, 0, 2];
    // No assemblies at all.
    assert_eq!(mesh_plan(&rods, 2, 2, 0), None);
    // More interior removals than cells.
    assert_eq!(mesh_plan(&rods, 1, 1, 200), None);
    // Nothing left after the end trims.
    assert_eq!(mesh_plan(&Vec::new(), 2, 2, 1), None);
}
