use population_dynm_sim::geometry::UNIT;
use population_dynm_sim::index::{purge, update_distances};
use population_dynm_sim::individual::Individual;
use population_dynm_sim::population::{Population, SimError};
use population_dynm_sim::species::{Event, KernelTable, Species};
use rand::rngs::StdRng;
use rand::SeedableRng;

fn kernel_species(id: usize, c1: i64, b0: i64, b1: i64, d0: i64, d1: i64) -> Species {
    let mut s = Species::new(
        id, b0, b1, c1, d0, d1, 100_000, 50_000, 0, 0, 0, 200_000, 100_000, 200_000, 100_000,
    );
    s.derive_norms(
        KernelTable { norm: 500_000, profile: vec![1_000_000, 800_000, 500_000, 200_000] },
        KernelTable { norm: 500_000, profile: vec![1_000_000, 800_000, 500_000, 200_000] },
    );
    s
}

fn placed(positions: &[(u64, u64)]) -> Population {
    let mut rng = StdRng::seed_from_u64(1);
    let species = kernel_species(0, positions.len() as i64, 400_000, 2_000_000, 200_000, 1_000_000);
    let mut population = Population::new(vec![species], &mut rng).unwrap();
    for (k, (x, y)) in positions.iter().enumerate() {
        population.individuals[k].x_coord = *x;
        population.individuals[k].y_coord = *y;
    }
    population
}

fn trio() -> Population {
    let mut population = placed(&[(100_000, 100_000), (150_000, 100_000), (600_000, 600_000)]);
    population.compute_initial_distances();
    population
}

#[test]
fn new_refuses_an_empty_catalogue() {
    let mut rng = StdRng::seed_from_u64(1);
    assert_eq!(Population::new(vec![], &mut rng).err(), Some(SimError::MalformedInput));
}

#[test]
fn new_refuses_a_negative_count() {
    let mut rng = StdRng::seed_from_u64(1);
    let species = kernel_species(0, -1, 0, 0, 0, 0);
    assert_eq!(Population::new(vec![species], &mut rng).err(), Some(SimError::MalformedInput));
}

#[test]
fn new_refuses_a_negative_radius_or_deviation() {
    let mut rng = StdRng::seed_from_u64(1);
    let good = kernel_species(0, 2, 0, 0, 0, 0);
    let mut bad = kernel_species(1, 2, 0, 0, 0, 0);
    bad.death_radius_max = -1;
    assert_eq!(Population::new(vec![good, bad], &mut rng).err(), Some(SimError::MalformedInput));
    let mut worse = kernel_species(0, 2, 0, 0, 0, 0);
    worse.birth_std = -5;
    assert_eq!(Population::new(vec![worse], &mut rng).err(), Some(SimError::MalformedInput));
}

#[test]
fn new_refuses_a_census_beyond_the_machine() {
    let mut rng = StdRng::seed_from_u64(1);
    let a = kernel_species(0, i64::MAX, 0, 0, 0, 0);
    let b = kernel_species(1, i64::MAX, 0, 0, 0, 0);
    let c = kernel_species(2, 2, 0, 0, 0, 0);
    assert_eq!(Population::new(vec![a, b, c], &mut rng).err(), Some(SimError::MalformedInput));
}

#[test]
fn new_creates_the_founders_in_catalogue_order() {
    let mut rng = StdRng::seed_from_u64(11);
    let list = vec![
        kernel_species(0, 2, 0, 0, 0, 0),
        kernel_species(1, 0, 0, 0, 0, 0),
        kernel_species(2, 3, 0, 0, 0, 0),
    ];
    let population = Population::new(list, &mut rng).unwrap();
    assert_eq!(population.size, 5);
    assert_eq!(population.individuals.len(), 5);
    let owners: Vec<usize> = population.individuals.iter().map(|i| i.species).collect();
    assert_eq!(owners, vec![0, 0, 2, 2, 2]);
    for (k, individual) in population.individuals.iter().enumerate() {
        assert_eq!(individual.id, k);
        assert!(individual.x_coord < UNIT);
        assert!(individual.y_coord < UNIT);
        assert!(individual.birth_distances.is_empty());
        assert!(individual.death_distances.is_empty());
        assert_eq!(individual.p_birth, 0);
    }
    assert_eq!(population.t, 0);
    assert_eq!(population.history.checkpoints.len(), 1);
    let first = &population.history.checkpoints[0];
    assert_eq!(first.time, 0);
    assert_eq!(first.species_individuals.len(), 3);
    let xs = |from: usize, to: usize| -> Vec<u64> {
        population.individuals[from..to].iter().map(|i| i.x_coord).collect()
    };
    let ys = |from: usize, to: usize| -> Vec<u64> {
        population.individuals[from..to].iter().map(|i| i.y_coord).collect()
    };
    assert_eq!(first.species_individuals[0], (xs(0, 2), ys(0, 2)));
    assert_eq!(first.species_individuals[1], (vec![], vec![]));
    assert_eq!(first.species_individuals[2], (xs(2, 5), ys(2, 5)));
    assert_eq!(population.species_list.len(), 3);
}

#[test]
fn new_places_the_founders_by_the_generator() {
    let list = vec![kernel_species(0, 50, 0, 0, 0, 0)];
    let mut first = StdRng::seed_from_u64(5);
    let mut second = StdRng::seed_from_u64(5);
    let mut third = StdRng::seed_from_u64(6);
    let a = Population::new(list.clone(), &mut first).unwrap();
    let b = Population::new(list.clone(), &mut second).unwrap();
    let c = Population::new(list, &mut third).unwrap();
    let xs = |p: &Population| -> Vec<(u64, u64)> {
        p.individuals.iter().map(|i| (i.x_coord, i.y_coord)).collect()
    };
    assert_eq!(xs(&a), xs(&b));
    assert_ne!(xs(&a), xs(&c));
    let distinct: std::collections::BTreeSet<u64> = a.individuals.iter().map(|i| i.x_coord).collect();
    assert!(distinct.len() > 40);
    assert!(a.individuals.iter().all(|i| i.x_coord < UNIT && i.y_coord < UNIT));
}

#[test]
fn update_distances_records_only_what_is_in_reach() {
    let species = kernel_species(0, 1, 0, 0, 0, 0);
    let mut individual = Individual::new(0, 0, 0, 0);
    update_distances(22_500_000_000, &mut individual, &species, Event::Birth, 9);
    assert_eq!(individual.birth_distances, vec![(9, 593_750)]);
    assert!(individual.death_distances.is_empty());
    update_distances(40_000_000_000, &mut individual, &species, Event::Birth, 10);
    assert_eq!(individual.birth_distances, vec![(9, 593_750)]);
    update_distances(0, &mut individual, &species, Event::Death, 11);
    assert_eq!(individual.death_distances, vec![(11, 1_000_000)]);
    let mut off = kernel_species(0, 1, 0, 0, 0, 0);
    off.birth_std = 0;
    off.derive_norms(
        KernelTable { norm: 500_000, profile: vec![1_000_000, 800_000] },
        KernelTable { norm: 500_000, profile: vec![1_000_000, 800_000] },
    );
    assert!(off.is_valid());
    update_distances(0, &mut individual, &off, Event::Birth, 12);
    assert_eq!(individual.birth_distances, vec![(9, 593_750)]);
}

#[test]
fn purge_drops_every_entry_of_the_victim() {
    let list = vec![(1, 10), (2, 20), (1, 30), (3, 40)];
    assert_eq!(purge(&list, 1), vec![(2, 20), (3, 40)]);
    assert_eq!(purge(&list, 7), list);
    assert_eq!(purge(&vec![], 7), vec![]);
}

#[test]
fn initial_distances_list_the_neighbours_in_reach() {
    let population = trio();
    assert_eq!(population.individuals[0].birth_distances, vec![(1, 962_500)]);
    assert_eq!(population.individuals[0].death_distances, vec![(1, 962_500)]);
    assert_eq!(population.individuals[1].birth_distances, vec![(0, 962_500)]);
    assert_eq!(population.individuals[1].death_distances, vec![(0, 962_500)]);
    assert!(population.individuals[2].birth_distances.is_empty());
    assert!(population.individuals[2].death_distances.is_empty());
    assert_eq!(population.size, 3);
}

#[test]
fn initial_distances_wrap_across_the_boundary() {
    let mut population = placed(&[(990_000, 0), (10_000, 0)]);
    population.compute_initial_distances();
    assert_eq!(population.individuals[0].birth_distances, vec![(1, 994_000)]);
    assert_eq!(population.individuals[1].birth_distances, vec![(0, 994_000)]);
}

#[test]
fn initial_distances_weigh_by_squared_distance() {
    let mut population = placed(&[(0, 0), (150_000, 0), (0, 199_999)]);
    population.compute_initial_distances();
    assert_eq!(population.individuals[0].birth_distances, vec![(1, 593_750), (2, 200_008)]);
    assert_eq!(population.individuals[1].birth_distances, vec![(0, 593_750)]);
    assert_eq!(population.individuals[2].birth_distances, vec![(0, 200_008)]);
}

#[test]
fn initial_distances_can_be_rebuilt() {
    let mut population = trio();
    population.compute_initial_distances();
    assert_eq!(population.individuals[0].birth_distances, vec![(1, 962_500)]);
    assert_eq!(population.individuals[1].death_distances, vec![(0, 962_500)]);
}

#[test]
fn neighbor_weights_follow_the_formula() {
    let mut population = trio();
    population.compute_neighbor_weights(Event::Birth);
    assert_eq!(population.individuals[0].birth_neighbor_weight, 3_850_000);
    assert_eq!(population.individuals[1].birth_neighbor_weight, 3_850_000);
    assert_eq!(population.individuals[2].birth_neighbor_weight, 0);
    assert_eq!(population.individuals[0].death_neighbor_weight, 0);
    population.compute_neighbor_weights(Event::Death);
    assert_eq!(population.individuals[0].death_neighbor_weight, 1_925_000);
    assert_eq!(population.individuals[2].death_neighbor_weight, 0);
    assert_eq!(population.individuals[0].birth_neighbor_weight, 3_850_000);
}

#[test]
fn neighbor_weights_vanish_without_a_norm() {
    let mut population = trio();
    population.species_list[0].birth_norm = None;
    population.compute_neighbor_weights(Event::Birth);
    assert_eq!(population.individuals[0].birth_neighbor_weight, 0);
    let effect = population.individuals[0].neighbor_effect(&population.species_list[0], Event::Death);
    assert_eq!(effect, 1_925_000);
}

#[test]
fn probabilities_add_base_rate_and_neighbor_effect() {
    let mut population = trio();
    population.compute_neighbor_weights(Event::Birth);
    population.compute_neighbor_weights(Event::Death);
    population.update_probabilities();
    assert_eq!(population.individuals[0].p_birth, 4_250_000);
    assert_eq!(population.individuals[0].p_death, 2_125_000);
    assert_eq!(population.individuals[0].p_move, 0);
    assert_eq!(population.individuals[2].p_birth, 400_000);
    assert_eq!(population.individuals[2].p_death, 200_000);
}

#[test]
fn individual_probabilities_carry_the_move_integral() {
    let mut species = kernel_species(0, 1, 400_000, 0, 200_000, 0);
    species.mintegral = 70_000;
    let mut individual = Individual::new(0, 0, 0, 0);
    individual.birth_neighbor_weight = 5;
    individual.death_neighbor_weight = 6;
    individual.update_probabilities(&species);
    assert_eq!(individual.p_birth, 400_005);
    assert_eq!(individual.p_death, 200_006);
    assert_eq!(individual.p_move, 70_000);
}

#[test]
fn birth_places_the_child_and_updates_the_index() {
    let mut population = trio();
    assert_eq!(population.execute_birth(0, 1_000_000, -2_000_000), Ok(()));
    assert_eq!(population.size, 4);
    assert_eq!(population.individuals.len(), 4);
    let child = &population.individuals[3];
    assert_eq!(child.id, 3);
    assert_eq!(child.species, 0);
    assert_eq!(child.x_coord, 150_000);
    assert_eq!(child.y_coord, 0);
    assert_eq!(child.birth_distances, vec![(0, 812_500), (1, 850_000)]);
    assert_eq!(child.death_distances, vec![(0, 812_500), (1, 850_000)]);
    assert_eq!(population.individuals[0].birth_distances, vec![(1, 962_500), (3, 812_500)]);
    assert_eq!(population.individuals[1].birth_distances, vec![(0, 962_500), (3, 850_000)]);
    assert_eq!(population.individuals[1].death_distances, vec![(0, 962_500), (3, 850_000)]);
    assert!(population.individuals[2].birth_distances.is_empty());
    assert_eq!(population.t, 0);
    assert_eq!(population.history.checkpoints.len(), 1);
}

#[test]
fn birth_is_refused_when_identifiers_run_out() {
    let mut population = trio();
    population.individuals[2].id = usize::MAX;
    let before = population.clone();
    assert_eq!(population.execute_birth(0, 0, 0), Err(SimError::IdOverflow));
    assert_eq!(population.size, before.size);
    assert_eq!(population.individuals.len(), 3);
    assert_eq!(population.individuals[0].birth_distances, before.individuals[0].birth_distances);
}

#[test]
fn death_removes_the_victim_and_purges_the_lists() {
    let mut population = trio();
    population.execute_birth(0, 1_000_000, -2_000_000).unwrap();
    population.execute_death(1);
    assert_eq!(population.size, 3);
    let ids: Vec<usize> = population.individuals.iter().map(|i| i.id).collect();
    assert_eq!(ids, vec![0, 2, 3]);
    assert_eq!(population.individuals[0].birth_distances, vec![(3, 812_500)]);
    assert_eq!(population.individuals[0].death_distances, vec![(3, 812_500)]);
    assert!(population.individuals[1].birth_distances.is_empty());
    assert_eq!(population.individuals[2].birth_distances, vec![(0, 812_500)]);
    assert_eq!(population.t, 0);
    assert_eq!(population.history.checkpoints.len(), 1);
}

#[test]
fn a_child_takes_the_identifier_after_the_largest_alive() {
    let mut population = trio();
    population.execute_death(0);
    population.execute_birth(0, 0, 0).unwrap();
    assert_eq!(population.individuals.last().unwrap().id, 3);
    population.execute_death(2);
    population.execute_birth(0, 0, 0).unwrap();
    assert_eq!(population.individuals.last().unwrap().id, 3);
    population.execute_birth(2, 0, 0).unwrap();
    assert_eq!(population.individuals.last().unwrap().id, 4);
}

#[test]
fn the_index_after_births_and_deaths_equals_a_fresh_build() {
    let mut rng = StdRng::seed_from_u64(21);
    let list = vec![
        kernel_species(0, 12, 400_000, 2_000_000, 200_000, 1_000_000),
        kernel_species(1, 9, 400_000, 2_000_000, 200_000, 1_000_000),
    ];
    let mut population = Population::new(list, &mut rng).unwrap();
    population.compute_initial_distances();
    let moves: [(bool, usize, i64, i64); 9] = [
        (true, 3, 500_000, -700_000),
        (true, 20, -1_200_000, 300_000),
        (false, 0, 0, 0),
        (true, 7, 2_500_000, 2_500_000),
        (false, 21, 0, 0),
        (false, 5, 0, 0),
        (true, 0, -100_000, 50_000),
        (true, 19, 900_000, -900_000),
        (false, 10, 0, 0),
    ];
    for (birth, actor, jx, jy) in moves {
        if birth {
            population.execute_birth(actor, jx, jy).unwrap();
        } else {
            population.execute_death(actor);
        }
    }
    assert_eq!(population.size, 21 + 5 - 4);
    assert_eq!(population.individuals.len(), population.size);
    let mut fresh = population.clone();
    fresh.compute_initial_distances();
    for (kept, built) in population.individuals.iter().zip(fresh.individuals.iter()) {
        assert_eq!(kept.birth_distances, built.birth_distances);
        assert_eq!(kept.death_distances, built.death_distances);
    }
    let total: usize = population.individuals.iter().map(|i| i.birth_distances.len()).sum();
    assert!(total > 0);
}

#[test]
fn size_follows_births_and_deaths() {
    let mut population = trio();
    let mut births = 0;
    let mut deaths = 0;
    for round in 0..6 {
        population.execute_birth(0, round * 100_000, -round * 100_000).unwrap();
        births += 1;
        if round % 2 == 0 {
            population.execute_death(0);
            deaths += 1;
        }
        assert_eq!(population.size, 3 + births - deaths);
        assert_eq!(population.individuals.len(), population.size);
    }
    assert_eq!(population.size, 6);
}

#[test]
fn checkpoint_groups_positions_by_species() {
    let mut rng = StdRng::seed_from_u64(3);
    let list = vec![
        kernel_species(0, 2, 0, 0, 0, 0),
        kernel_species(1, 0, 0, 0, 0, 0),
        kernel_species(2, 1, 0, 0, 0, 0),
    ];
    let mut population = Population::new(list, &mut rng).unwrap();
    population.individuals[0].x_coord = 1;
    population.individuals[0].y_coord = 2;
    population.individuals[1].x_coord = 3;
    population.individuals[1].y_coord = 4;
    population.individuals[2].x_coord = 5;
    population.individuals[2].y_coord = 6;
    population.t = 77;
    let checkpoint = population.get_checkpoint();
    assert_eq!(checkpoint.time, 77);
    assert_eq!(
        checkpoint.species_individuals,
        vec![(vec![1, 3], vec![2, 4]), (vec![], vec![]), (vec![5], vec![6])]
    );
    assert_eq!(population.history.checkpoints.len(), 1);
}

#[test]
fn dense_weights_follow_the_positions() {
    let mut population = placed(&[(0, 0), (150_000, 0), (0, 199_999)]);
    population.update_neighbor_weights(Event::Birth);
    assert_eq!(population.individuals[0].birth_neighbor_weight, 3_175_032);
    assert_eq!(population.individuals[1].birth_neighbor_weight, 2_375_000);
    assert_eq!(population.individuals[2].birth_neighbor_weight, 800_032);
    assert_eq!(population.individuals[0].death_neighbor_weight, 0);
    assert!(population.individuals[0].birth_distances.is_empty());
    population.update_neighbor_weights(Event::Death);
    assert_eq!(population.individuals[0].death_neighbor_weight, 1_587_516);
}

#[test]
fn dense_and_sparse_weights_agree_on_a_consistent_index() {
    let mut rng = StdRng::seed_from_u64(77);
    let list = vec![
        kernel_species(0, 15, 400_000, 2_000_000, 200_000, 1_000_000),
        kernel_species(1, 15, 300_000, 1_500_000, 100_000, 3_000_000),
    ];
    let mut sparse = Population::new(list, &mut rng).unwrap();
    sparse.compute_initial_distances();
    sparse.execute_birth(4, 700_000, -300_000).unwrap();
    sparse.execute_death(9);
    let mut dense = sparse.clone();
    sparse.compute_neighbor_weights(Event::Birth);
    sparse.compute_neighbor_weights(Event::Death);
    dense.update_neighbor_weights(Event::Birth);
    dense.update_neighbor_weights(Event::Death);
    let mut some = 0;
    for (a, b) in sparse.individuals.iter().zip(dense.individuals.iter()) {
        assert_eq!(a.birth_neighbor_weight, b.birth_neighbor_weight);
        assert_eq!(a.death_neighbor_weight, b.death_neighbor_weight);
        some += a.birth_neighbor_weight;
    }
    assert!(some > 0);
}

#[test]
fn a_child_born_without_spread_stands_on_its_parent_with_weight_one() {
    let mut rng = StdRng::seed_from_u64(1);
    let mut species = kernel_species(0, 2, 400_000, 2_000_000, 200_000, 1_000_000);
    species.mbsd = 0;
    let mut population = Population::new(vec![species], &mut rng).unwrap();
    population.individuals[0].x_coord = 300_000;
    population.individuals[0].y_coord = 700_000;
    population.individuals[1].x_coord = 800_000;
    population.individuals[1].y_coord = 200_000;
    population.compute_initial_distances();
    population.execute_birth(0, 2_500_000, -1_700_000).unwrap();
    let child = population.individuals[2].clone();
    assert_eq!((child.x_coord, child.y_coord), (300_000, 700_000));
    assert_eq!(child.distance(&population.individuals[0]), 0);
    assert_eq!(child.birth_distances, vec![(0, 1_000_000)]);
    assert_eq!(child.death_distances, vec![(0, 1_000_000)]);
    assert_eq!(population.individuals[0].birth_distances, vec![(2, 1_000_000)]);
    assert_eq!(population.individuals[0].death_distances, vec![(2, 1_000_000)]);
}
