use sandpile::constants::{ALPHA_EXTRA_ENERGY, ALPHA_LANDING, ALPHA_MAIN, BASE_CAPACITY, BASE_RESILIENCE, MAX_PASSES};
use sandpile::avalanche::Avalanche;
use sandpile::draws::ScriptedVariates;
use sandpile::error::SandpileError;
use sandpile::grain::{Grain, GrainState, RollMove};
use sandpile::location::{Lattice, Location};
use sandpile::pile::{AvalancheReport, Sandpile};

fn zeros() -> ScriptedVariates {
    ScriptedVariates::new(vec![], vec![])
}

fn flat_pile(x: i32, y: i32, z: i32) -> Sandpile {
    let lattice = Location::initializeLocations(x, y, z, BASE_CAPACITY, BASE_RESILIENCE, ALPHA_MAIN, ALPHA_MAIN, &mut zeros())
        .unwrap();
    Sandpile::new(lattice)
}

fn count(l: &Lattice, x: i32, y: i32, z: i32) -> usize {
    l.numberOfGrains(x, y, z).unwrap()
}

fn total(l: &Lattice) -> usize {
    l.cells.iter().map(|c| c.getNumberOfGrains()).sum()
}

fn occupancy(l: &Lattice) -> Vec<Vec<u32>> {
    l.cells.iter().map(|c| c.grainIds.clone()).collect()
}

#[test]
fn single_grain_free_falls_to_ground() {
    let mut pile = flat_pile(5, 5, 5);
    let report = pile.dropGrain(ALPHA_LANDING, MAX_PASSES, &mut zeros()).unwrap();
    assert_eq!(report.totalGrainsInvolved, 1);
    assert_eq!(report.totalMovement, 4);
    assert!(report.complete);
    assert_eq!(report.escaped, 0);
    assert_eq!(count(&pile.lattice, 2, 2, 0), 1);
    let g = Grain::getGrainById(&pile.registry, 0).unwrap();
    assert_eq!(g.state, GrainState::Stationary);
    assert_eq!((g.x, g.y, g.z), (2, 2, 0));
    assert_eq!(g.energy, 0);
}

#[test]
fn topple_sends_grain_into_lower_neighborhood() {
    let mut pile = flat_pile(5, 5, 5);
    for _ in 0..4 {
        pile.dropGrain(ALPHA_LANDING, MAX_PASSES, &mut zeros()).unwrap();
    }
    assert_eq!(count(&pile.lattice, 2, 2, 0), 4);
    // landing draws, then a large extra-energy draw and a zero size draw at the
    // impact on (2, 2, 1), then quiet draws; directions 0, 0 and neighbour 3.
    let mut forced = ScriptedVariates::new(vec![0, 0, 10, 0, 0, 0, 0, 0, 0, 0], vec![0, 0, 3, 0, 0, 0]);
    let report = pile.dropGrain(ALPHA_LANDING, MAX_PASSES, &mut forced).unwrap();
    assert!(report.totalMovement > 0);
    assert!(report.complete);
    assert_eq!(count(&pile.lattice, 2, 2, 0), 4);
    assert_eq!(count(&pile.lattice, 2, 2, 1), 0);
    let g = Grain::getGrainById(&pile.registry, 4).unwrap();
    assert_eq!(g.z, 0);
    assert!((g.x, g.y) != (2, 2));
    assert!((g.x - 2).abs() <= 1 && (g.y - 2).abs() <= 1);
    assert_eq!(count(&pile.lattice, g.x, g.y, 0), 1);
    assert_eq!(total(&pile.lattice), 5);
}

#[test]
fn rim_grain_escapes_at_ground_level() {
    let mut pile = flat_pile(5, 5, 5);
    // a large x variance toward the low end lands every grain on column (0, 2)
    let edge = || ScriptedVariates::new(vec![9, 0], vec![0, 0]);
    for _ in 0..4 {
        let r = pile.dropGrain(ALPHA_LANDING, MAX_PASSES, &mut edge()).unwrap();
        assert_eq!(r.escaped, 0);
    }
    assert_eq!(count(&pile.lattice, 0, 2, 0), 4);
    // a grain knocked loose onto the full rim cell at ground level
    let mut g = Grain::new(4, 0, 2, 0);
    g.state = GrainState::Rolling;
    Grain::addGrain(g, &mut pile.registry);
    let mut av = Avalanche::new(4);
    av.addGrain(4);
    av.update(&mut pile, 4, &mut zeros());
    assert_eq!(pile.escaped, 1);
    assert!(av.grainIds.is_empty());
    assert_eq!(count(&pile.lattice, 0, 2, 0), 4);
    assert_eq!(total(&pile.lattice), 4);
    // a grain directed off the edge through the whole engine: it lands on the
    // full rim cell, rolls inward instead of escaping while it can
    let report = pile.dropGrain(ALPHA_LANDING, MAX_PASSES, &mut edge()).unwrap();
    assert_eq!(report.escaped, 0);
    assert_eq!(total(&pile.lattice), 5);
    assert_eq!(total(&pile.lattice) + pile.escaped, pile.registry.len());
}

#[test]
fn rolling_grain_on_rim_escapes() {
    let pile = flat_pile(5, 5, 5);
    let mut g = Grain::new(0, 0, 3, 0);
    g.state = GrainState::Rolling;
    assert_eq!(g.roll(&pile.lattice, 0), RollMove::Escape);
    let inner = Grain::new(1, 2, 2, 0);
    assert_eq!(inner.roll(&pile.lattice, 0), RollMove::Wait);
}

#[test]
fn cell_outside_footprint_is_inert() {
    let mut pile = flat_pile(5, 5, 5);
    let corner = Location::getLocationByXyz(&pile.lattice, 0, 0, 1).unwrap();
    assert_eq!(corner.capacity, 0);
    assert_eq!(corner.resilience, 0);
    let i = pile.lattice.index(0, 0, 1);
    let mut g = Grain::new(0, 0, 0, 1);
    g.energy = 2;
    let e = pile.lattice.cells[i].incomingGrain(&mut g);
    assert_eq!(e, 2);
    assert_eq!(g.state, GrainState::Rolling);
    assert_eq!(g.energy, 1);
    assert_eq!(count(&pile.lattice, 0, 0, 1), 0);
    for _ in 0..30 {
        pile.dropGrain(ALPHA_LANDING, MAX_PASSES, &mut ScriptedVariates::new(vec![3, 3, 0, 0], vec![0, 0, 1])).unwrap();
    }
    assert_eq!(count(&pile.lattice, 0, 0, 1), 0);
    assert_eq!(count(&pile.lattice, 4, 4, 3), 0);
}

fn run(seed_magnitudes: Vec<i64>, seed_choices: Vec<usize>, drops: usize) -> (Vec<AvalancheReport>, Vec<Vec<u32>>) {
    let mut v = ScriptedVariates::new(seed_magnitudes, seed_choices);
    let lattice = Location::initializeLocations(7, 7, 4, BASE_CAPACITY, BASE_RESILIENCE, ALPHA_MAIN, ALPHA_MAIN, &mut v).unwrap();
    let mut pile = Sandpile::new(lattice);
    let mut reports = Vec::new();
    for _ in 0..drops {
        reports.push(pile.dropGrain(ALPHA_LANDING, MAX_PASSES, &mut v).unwrap());
    }
    (reports, occupancy(&pile.lattice))
}

#[test]
fn same_draws_give_same_run() {
    let m = vec![0, 1, 0, 2, 5, 0, 1, 3, 0, 0, 4, 1];
    let c = vec![1, 0, 4, 2, 7, 3, 1];
    let a = run(m.clone(), c.clone(), 60);
    let b = run(m, c, 60);
    assert_eq!(a, b);
}

#[test]
fn grains_are_conserved_without_escapes() {
    let mut pile = flat_pile(9, 9, 5);
    let mut v = ScriptedVariates::new(vec![0, 1, 2, 0, 1, 0, 0, 3], vec![0, 1, 2, 1]);
    let mut dropped = 0;
    for _ in 0..40 {
        let r = pile.dropGrain(ALPHA_LANDING, MAX_PASSES, &mut v).unwrap();
        assert!(r.complete);
        dropped += 1;
    }
    assert_eq!(pile.escaped, 0);
    assert_eq!(pile.stranded, 0);
    assert_eq!(total(&pile.lattice), dropped);
    assert_eq!(pile.registry.len(), dropped);
}

#[test]
fn no_cell_exceeds_its_capacity() {
    let mut v = ScriptedVariates::new(vec![0, 1, 4, 0, 2, 1, 0, 0, 6], vec![3, 0, 1, 2, 5]);
    let lattice = Location::initializeLocations(6, 6, 4, 2, 1, ALPHA_MAIN, ALPHA_MAIN, &mut v).unwrap();
    let mut pile = Sandpile::new(lattice);
    for _ in 0..120 {
        pile.dropGrain(ALPHA_LANDING, MAX_PASSES, &mut v).unwrap();
        for c in pile.lattice.cells.iter() {
            assert!(c.grainIds.len() <= c.capacity);
            if c.capacity == 0 {
                assert!(c.grainIds.is_empty());
            }
        }
    }
    assert_eq!(total(&pile.lattice) + pile.escaped + pile.stranded, 120);
}

#[test]
fn pass_budget_bounds_every_drop() {
    let mut pile = flat_pile(5, 5, 5);
    let r = pile.dropGrain(ALPHA_LANDING, 3, &mut zeros()).unwrap();
    assert!(!r.complete);
    assert_eq!(r.passes, 3);
    assert_eq!(pile.stranded, 1);
    assert_eq!(total(&pile.lattice), 0);
    let r2 = pile.dropGrain(ALPHA_LANDING, 0, &mut zeros()).unwrap();
    assert_eq!(r2.passes, 0);
    assert!(!r2.complete);
    assert_eq!(pile.stranded, 2);
}

#[test]
fn invalid_parameters_are_rejected() {
    assert_eq!(
        Location::initializeLocations(5, 5, 5, 4, 3, 100, ALPHA_MAIN, &mut zeros()).err(),
        Some(SandpileError::InvalidParameter)
    );
    assert_eq!(
        Location::initializeLocations(5, 0, 5, 4, 3, ALPHA_MAIN, ALPHA_MAIN, &mut zeros()).err(),
        Some(SandpileError::InvalidParameter)
    );
    let mut pile = flat_pile(5, 5, 5);
    assert_eq!(pile.dropGrain(100, MAX_PASSES, &mut zeros()), Err(SandpileError::InvalidParameter));
    assert_eq!(pile.registry.len(), 0);
}

#[test]
fn out_of_bounds_queries_fail() {
    let pile = flat_pile(5, 5, 5);
    assert_eq!(pile.lattice.numberOfGrains(5, 0, 0), Err(SandpileError::OutOfBounds));
    assert_eq!(pile.lattice.numberOfGrains(0, -1, 0), Err(SandpileError::OutOfBounds));
    assert!(Location::getLocationByXyz(&pile.lattice, 0, 0, 5).is_none());
    assert_eq!(pile.lattice.numberOfGrains(4, 4, 0), Ok(0));
}

#[test]
fn perturbation_topples_above_resilience_only() {
    let mut cell = Location::new(1, 2, 2, 1, 4, 3, 0, 0);
    cell.grainIds = vec![10, 11, 12];
    assert_eq!(cell.perturbWith(3, 0, 0), None);
    assert_eq!(cell.grainIds, vec![10, 11, 12]);
    assert_eq!(cell.perturbWith(2, 2, 0), Some(vec![12, 11]));
    assert_eq!(cell.grainIds, vec![10]);
    cell.grainIds = vec![10, 11, 12, 13];
    assert_eq!(cell.perturbWith(1, ALPHA_EXTRA_ENERGY as i64, 1), Some(vec![13, 12, 11]));
    assert_eq!(cell.grainIds, vec![10]);
    let mut ground = Location::new(2, 2, 2, 0, 4, 3, 0, 0);
    ground.grainIds = vec![1, 2];
    assert_eq!(ground.perturbWith(100, 100, 5), None);
    assert_eq!(ground.grainIds, vec![1, 2]);
}

#[test]
fn avalanche_size_never_exceeds_residents() {
    let mut cell = Location::new(1, 2, 2, 3, 4, 0, 0, 0);
    cell.grainIds = vec![7];
    assert_eq!(cell.perturbWith(5, 0, 8), Some(vec![7]));
    assert!(cell.grainIds.is_empty());
    assert_eq!(cell.perturbWith(5, -3, -3), Some(vec![]));
}

#[test]
fn jitter_adds_clamped_draws() {
    let c = Location::new(0, 1, 1, 0, 4, 3, 2, -5);
    assert_eq!(c.capacity, 6);
    assert_eq!(c.resilience, 3);
    let big = Location::new(0, 1, 1, 0, usize::MAX - 1, 3, 9, 0);
    assert_eq!(big.capacity, usize::MAX);
    let e = Location::emptySpace(3, 0, 0, 2);
    assert_eq!((e.capacity, e.resilience), (0, 0));
}

#[test]
fn landing_positions_are_clamped() {
    let pile = flat_pile(5, 4, 3);
    assert_eq!(Grain::determineInitialPosition(&pile.lattice, 0, 0, 0, 1), (2, 2, 2));
    assert_eq!(Grain::determineInitialPosition(&pile.lattice, 1, 1, 0, 1), (1, 3, 2));
    assert_eq!(Grain::determineInitialPosition(&pile.lattice, 9, 9, 1, 0), (4, 0, 2));
    assert_eq!(Grain::determineInitialPosition(&pile.lattice, -4, 9, 3, 3), (2, 3, 2));
}

#[test]
fn free_fall_gains_energy_up_to_terminal_speed() {
    let pile = flat_pile(5, 5, 5);
    let mut g = Grain::new(0, 2, 2, 4);
    g.state = GrainState::Falling;
    let mut moves = 0;
    while g.fall(&pile.lattice) {
        moves += 1;
    }
    assert_eq!(moves, 4);
    assert_eq!(g.z, 0);
    assert_eq!(g.energy, 3);
    assert_eq!(g.state, GrainState::Impact);
}

#[test]
fn lower_neighborhood_and_ceiling() {
    let pile = flat_pile(5, 5, 5);
    let n = Location::getLowerNeighborhood(&pile.lattice, 0, 0, 2);
    assert_eq!(n, vec![(0, 0, 1), (0, 1, 1), (1, 0, 1), (1, 1, 1)]);
    assert_eq!(Location::getLowerNeighborhood(&pile.lattice, 2, 2, 3).len(), 9);
    assert!(Location::getLowerNeighborhood(&pile.lattice, 2, 2, 0).is_empty());
    assert_eq!(Location::getCeilingLocations(&pile.lattice, 1, 3, 2), vec![(1, 3, 2), (1, 3, 3), (1, 3, 4)]);
    assert_eq!(Location::getCeilingLocations(&pile.lattice, 1, 3, 4), vec![(1, 3, 4)]);
}

#[test]
fn open_neighbours_and_roll_choices() {
    let mut pile = flat_pile(5, 5, 5);
    for _ in 0..4 {
        pile.dropGrain(ALPHA_LANDING, MAX_PASSES, &mut zeros()).unwrap();
    }
    let open = Location::openLowerNeighbors(&pile.lattice, 2, 2, 1);
    assert_eq!(open.len(), 8);
    assert!(!open.contains(&(2, 2, 0)));
    let mut g = Grain::new(9, 2, 2, 1);
    g.state = GrainState::Rolling;
    assert_eq!(g.roll(&pile.lattice, 4), RollMove::To(2, 3, 0));
    assert_eq!(g.roll(&pile.lattice, 12), RollMove::To(2, 3, 0));
}

#[test]
fn registry_lookups() {
    let mut pile = flat_pile(5, 5, 5);
    pile.dropGrain(ALPHA_LANDING, MAX_PASSES, &mut zeros()).unwrap();
    pile.dropGrain(ALPHA_LANDING, MAX_PASSES, &mut zeros()).unwrap();
    let at = Grain::getGrainsByLocation(&pile.registry, 2, 2, 0);
    assert_eq!(at.iter().map(|g| g.id).collect::<Vec<_>>(), vec![0, 1]);
    assert!(Grain::getGrainsByLocation(&pile.registry, 1, 1, 0).is_empty());
    assert!(Grain::getGrainById(&pile.registry, 2).is_none());
    let mut g = Grain::getGrainById(&pile.registry, 1).unwrap();
    g.incrementEnergy();
    g.increaseEnergy(usize::MAX);
    assert_eq!(g.energy, usize::MAX);
    g.saveGrain(&mut pile.registry);
    assert_eq!(Grain::getGrainById(&pile.registry, 1).unwrap().energy, usize::MAX);
}

#[test]
fn saved_location_replaces_cell() {
    let mut pile = flat_pile(5, 5, 5);
    let mut cell = Location::new(0, 2, 2, 1, 0, 0, 0, 0);
    let stored = Location::getLocationByXyz(&pile.lattice, 2, 2, 1).unwrap();
    cell.id = stored.id;
    cell.capacity = stored.capacity;
    cell.resilience = stored.resilience;
    cell.grainIds = vec![42];
    cell.saveLocation(&mut pile.lattice);
    assert_eq!(count(&pile.lattice, 2, 2, 1), 1);
}

#[test]
fn occupancy_rows_list_levels_top_down() {
    let mut pile = flat_pile(5, 5, 5);
    for _ in 0..5 {
        pile.dropGrain(ALPHA_LANDING, MAX_PASSES, &mut ScriptedVariates::new(vec![0, 0, 10, 0], vec![0, 0, 0])).unwrap();
    }
    let rows = pile.lattice.occupancyRows();
    assert_eq!(rows.len(), 25);
    assert!(rows.iter().all(|r| r.len() == 5));
    // the last five rows are level 0, y = 0..4
    assert_eq!(rows[20 + 2][2], 4);
    let sum: usize = rows.iter().flatten().sum();
    assert_eq!(sum, pile.residentTotal());
    assert_eq!(pile.residentTotal(), total(&pile.lattice));
    assert_eq!(pile.residentTotal(), 5);
}

#[test]
fn perturbation_owed_whatever_the_draws() {
    let mut cell = Location::new(5, 1, 1, 2, 4, 3, 0, 0);
    cell.grainIds = vec![1, 2, 3];
    let mut low = ScriptedVariates::new(vec![-7, -7], vec![]);
    let out = cell.purtubation(4, &mut low).unwrap();
    assert_eq!(out, vec![3, 2]);
    assert_eq!(cell.grainIds, vec![1]);
    let mut ground = Location::new(6, 1, 1, 0, 4, 3, 0, 0);
    ground.grainIds = vec![1];
    assert_eq!(ground.purtubation(50, &mut ScriptedVariates::new(vec![9, 9], vec![])), None);
}

#[test]
fn cell_ids_follow_storage_order() {
    let pile = flat_pile(3, 4, 2);
    for (i, c) in pile.lattice.cells.iter().enumerate() {
        assert_eq!(c.id as usize, i);
    }
}
