use population_dynm_sim::engine::{Noise, RunState, Step};
use population_dynm_sim::messages::{WorkerMessageReceived, WorkerResponse, WorkerStatus};
use population_dynm_sim::population::{Population, SimError};
use population_dynm_sim::sampling::{total_weight, weighted_sample};
use population_dynm_sim::scheduler::{event_of_slot, waiting_time};
use population_dynm_sim::species::{Event, KernelTable, Species};
use rand::distributions::Distribution;
use rand::rngs::StdRng;
use rand::{Rng, SeedableRng};

fn kernel_species(id: usize, c1: i64, b0: i64, b1: i64, d0: i64, d1: i64) -> Species {
    let mut s = Species::new(
        id, b0, b1, c1, d0, d1, 100_000, 50_000, 0, 0, 0, 200_000, 100_000, 200_000, 100_000,
    );
    s.derive_norms(
        KernelTable { norm: 500_000, profile: vec![1_000_000, 800_000, 500_000, 200_000] },
        KernelTable { norm: 500_000, profile: vec![1_000_000, 800_000, 500_000, 200_000] },
    );
    s
}

fn noise(seed: u64, n: usize) -> Vec<Noise> {
    let mut rng = StdRng::seed_from_u64(seed);
    let normal = rand_distr::Normal::new(0.0f64, 1.0f64).unwrap();
    let mut tape = Vec::new();
    for _ in 0..n {
        let zx: f64 = normal.sample(&mut rng);
        let zy: f64 = normal.sample(&mut rng);
        let u: f64 = rng.gen_range(f64::MIN_POSITIVE..1.0);
        let wait = ((-u.ln()) * 1e6) as u64;
        tape.push(Noise {
            jitter_x: (zx * 1e6) as i64,
            jitter_y: (zy * 1e6) as i64,
            wait: wait.max(1),
        });
    }
    tape
}

fn two_species(seed: u64) -> (Population, StdRng) {
    let mut rng = StdRng::seed_from_u64(seed);
    let list = vec![
        kernel_species(0, 10, 400_000, 100_000, 400_000, 100_000),
        kernel_species(1, 10, 400_000, 100_000, 400_000, 100_000),
    ];
    let mut population = Population::new(list, &mut rng).unwrap();
    population.compute_initial_distances();
    (population, rng)
}

#[test]
fn total_weight_adds_up_or_reports_overflow() {
    assert_eq!(total_weight(&vec![]), Some(0));
    assert_eq!(total_weight(&vec![1, 2, 3]), Some(6));
    assert_eq!(total_weight(&vec![u64::MAX, 0]), Some(u64::MAX));
    assert_eq!(total_weight(&vec![u64::MAX, 1]), None);
}

#[test]
fn weighted_sample_never_picks_a_zero_weight() {
    let mut rng = StdRng::seed_from_u64(9);
    for _ in 0..200 {
        assert_eq!(weighted_sample(&vec![0, 5, 0], &mut rng), Some(1));
    }
    let mut seen = [0usize; 4];
    for _ in 0..400 {
        let k = weighted_sample(&vec![1, 0, 3, 0], &mut rng).unwrap();
        seen[k] += 1;
    }
    assert_eq!(seen[1], 0);
    assert_eq!(seen[3], 0);
    assert!(seen[0] > 0);
    assert!(seen[2] > seen[0]);
}

#[test]
fn weighted_sample_falls_back_to_a_uniform_choice() {
    let mut rng = StdRng::seed_from_u64(9);
    let mut seen = [0usize; 3];
    for _ in 0..300 {
        let k = weighted_sample(&vec![0, 0, 0], &mut rng).unwrap();
        seen[k] += 1;
    }
    assert!(seen[0] > 0 && seen[1] > 0 && seen[2] > 0);
    assert_eq!(weighted_sample(&vec![], &mut rng), None);
}

#[test]
fn slots_name_birth_then_death_twice() {
    assert_eq!(event_of_slot(0), Event::Birth);
    assert_eq!(event_of_slot(1), Event::Death);
    assert_eq!(event_of_slot(2), Event::Death);
}

#[test]
fn choose_event_reports_exhaustion_at_rate_zero() {
    let (population, mut rng) = two_species(2);
    assert!(matches!(population.choose_event(&mut rng), Ok(None)));
}

#[test]
fn choose_event_picks_the_only_possible_actor() {
    let (mut population, mut rng) = two_species(2);
    population.individuals[7].p_birth = 5;
    for _ in 0..50 {
        let choice = population.choose_event(&mut rng).unwrap().unwrap();
        assert_eq!(choice.event, Event::Birth);
        assert_eq!(choice.actor, 7);
        assert_eq!(choice.rate, 5);
    }
    population.individuals[7].p_birth = 0;
    population.individuals[4].p_death = 9;
    for _ in 0..50 {
        let choice = population.choose_event(&mut rng).unwrap().unwrap();
        assert_eq!(choice.event, Event::Death);
        assert_eq!(choice.actor, 4);
        assert_eq!(choice.rate, 9);
    }
}

#[test]
fn choose_event_dispatches_move_weight_as_death() {
    let (mut population, mut rng) = two_species(2);
    population.individuals[0].p_move = 3;
    let mut actors = std::collections::BTreeSet::new();
    for _ in 0..200 {
        let choice = population.choose_event(&mut rng).unwrap().unwrap();
        assert_eq!(choice.event, Event::Death);
        assert_eq!(choice.rate, 3);
        assert!(choice.actor < 20);
        actors.insert(choice.actor);
    }
    assert!(actors.len() > 5);
}

#[test]
fn choose_event_sums_all_three_channels() {
    let (mut population, mut rng) = two_species(2);
    population.individuals[0].p_birth = 10;
    population.individuals[1].p_death = 20;
    population.individuals[2].p_move = 30;
    let mut births = 0;
    for _ in 0..300 {
        let choice = population.choose_event(&mut rng).unwrap().unwrap();
        assert_eq!(choice.rate, 60);
        match choice.event {
            Event::Birth => {
                births += 1;
                assert_eq!(choice.actor, 0);
            }
            Event::Death => assert_eq!(choice.actor, 1),
        }
    }
    assert!(births > 10 && births < 120);
}

#[test]
fn choose_event_refuses_a_rate_beyond_the_type() {
    let (mut population, mut rng) = two_species(2);
    population.individuals[0].p_birth = u64::MAX as u128;
    population.individuals[1].p_death = 1;
    assert_eq!(population.choose_event(&mut rng).err(), Some(SimError::RateOverflow));
    population.individuals[1].p_death = 0;
    assert_eq!(population.choose_event(&mut rng).unwrap().unwrap().rate, u64::MAX);
    population.individuals[0].p_birth = u64::MAX as u128 + 1;
    assert_eq!(population.choose_event(&mut rng).err(), Some(SimError::RateOverflow));
}

#[test]
fn waiting_time_is_the_draw_over_the_rate_rounded_up() {
    assert_eq!(waiting_time(2_000_000, 1_000_000), 500_000);
    assert_eq!(waiting_time(3, 1), 333_334);
    assert_eq!(waiting_time(1_000_000, 1), 1);
    assert_eq!(waiting_time(u64::MAX, 1), 1);
    assert_eq!(waiting_time(16_000_000, 693_147), 43_322);
}

#[test]
fn waiting_time_is_positive_for_every_positive_draw() {
    let rates: [u64; 6] = [1, 2, 999_999, 1_000_000, 123_456_789_012, u64::MAX];
    let draws: [u64; 6] = [1, 2, 500_000, 1_000_000, 40_000_000, u64::MAX];
    for rate in rates {
        for draw in draws {
            assert!(waiting_time(rate, draw) > 0);
        }
    }
}

#[test]
fn increment_time_advances_the_clock() {
    let (mut population, _) = two_species(2);
    assert_eq!(population.increment_time(2_000_000, 1_000_000), Ok(()));
    assert_eq!(population.t, 500_000);
    assert_eq!(population.increment_time(3, 1), Ok(()));
    assert_eq!(population.t, 833_334);
    assert_eq!(population.size, 20);
    assert_eq!(population.history.checkpoints.len(), 1);
}

#[test]
fn increment_time_refuses_zero_and_overflow() {
    let (mut population, _) = two_species(2);
    assert_eq!(population.increment_time(0, 5), Err(SimError::InvalidDraw));
    assert_eq!(population.increment_time(5, 0), Err(SimError::InvalidDraw));
    assert_eq!(population.t, 0);
    population.t = u64::MAX - 10;
    assert_eq!(population.increment_time(1_000_000, 11), Err(SimError::TimeOverflow));
    assert_eq!(population.t, u64::MAX - 10);
    assert_eq!(population.increment_time(1_000_000, 10), Ok(()));
    assert_eq!(population.t, u64::MAX);
}

#[test]
fn a_barren_population_is_exhausted_at_the_first_step() {
    let mut rng = StdRng::seed_from_u64(4);
    let list = vec![kernel_species(0, 1, 0, 0, 0, 0)];
    let mut population = Population::new(list, &mut rng).unwrap();
    population.compute_initial_distances();
    let x = population.individuals[0].x_coord;
    assert!(matches!(population.step(&mut rng, 1_000_000, 1_000_000), Ok(Step::Exhausted)));
    assert_eq!(population.size, 1);
    assert_eq!(population.individuals.len(), 1);
    assert_eq!(population.individuals[0].x_coord, x);
    let report = population.simulate(5_000_000, &mut rng, &noise(1, 100)).unwrap();
    assert_eq!(report.state, RunState::Exhausted);
    assert_eq!(report.births, 0);
    assert_eq!(report.deaths, 0);
    assert_eq!(population.size, 1);
    assert_eq!(population.t, 0);
    assert_eq!(population.history.checkpoints.len(), 1);
}

#[test]
fn a_step_executes_one_event() {
    let (mut population, mut rng) = two_species(8);
    match population.step(&mut rng, 300_000, -400_000).unwrap() {
        Step::Exhausted => panic!("events are possible"),
        Step::Fired(event, checkpoint, rate) => {
            assert!(rate >= 16_000_000);
            assert_eq!(checkpoint.time, 0);
            assert_eq!(checkpoint.species_individuals.len(), 2);
            let counted: usize = checkpoint.species_individuals.iter().map(|g| g.0.len()).sum();
            match event {
                Event::Birth => assert_eq!(population.size, 21),
                Event::Death => assert_eq!(population.size, 19),
            }
            assert_eq!(counted, population.size);
        }
    }
    assert_eq!(population.t, 0);
    assert_eq!(population.history.checkpoints.len(), 1);
    assert_eq!(population.individuals.len(), population.size);
}

#[test]
fn a_step_refreshes_the_intensities() {
    let (mut population, mut rng) = two_species(8);
    let before = population.clone();
    population.step(&mut rng, 0, 0).unwrap();
    let survivor = population.individuals.iter().find(|i| i.id == 0 || i.id == 1).unwrap();
    let was = before.individuals.iter().find(|i| i.id == survivor.id).unwrap();
    let sum: u128 = was.birth_distances.iter().map(|e| e.1 as u128).sum();
    assert_eq!(survivor.p_birth, 400_000 + 100_000 * sum / 500_000);
    assert_eq!(survivor.p_move, 0);
}

#[test]
fn two_species_run_to_the_horizon() {
    let (mut population, mut rng) = two_species(42);
    let tape = noise(43, 20_000);
    let report = population.simulate(5_000_000, &mut rng, &tape).unwrap();
    assert!(report.state == RunState::Complete || report.state == RunState::Exhausted);
    let times: Vec<u64> = population.history.checkpoints.iter().map(|c| c.time).collect();
    assert_eq!(times.len(), 1 + report.births + report.deaths);
    assert!(times.len() > 10);
    for pair in times.windows(2) {
        assert!(pair[0] < pair[1]);
    }
    if report.state == RunState::Complete {
        assert!(*times.last().unwrap() >= 5_000_000);
        assert_eq!(*times.last().unwrap(), population.t);
        for t in &times[..times.len() - 1] {
            assert!(*t < 5_000_000);
        }
    } else {
        assert!(population.t < 5_000_000);
    }
    assert_eq!(population.size, 20 + report.births - report.deaths);
    assert_eq!(population.individuals.len(), population.size);
    assert!(population.size < 2_000);
    let last = population.history.checkpoints.last().unwrap();
    let counted: usize = last.species_individuals.iter().map(|g| g.0.len()).sum();
    assert_eq!(counted, population.size);
    let mut fresh = population.clone();
    fresh.compute_initial_distances();
    for (kept, built) in population.individuals.iter().zip(fresh.individuals.iter()) {
        assert_eq!(kept.birth_distances, built.birth_distances);
        assert_eq!(kept.death_distances, built.death_distances);
    }
}

#[test]
fn a_seeded_run_is_reproducible() {
    let tape = noise(43, 20_000);
    let (mut first, mut first_rng) = two_species(42);
    let (mut second, mut second_rng) = two_species(42);
    let a = first.simulate(5_000_000, &mut first_rng, &tape).unwrap();
    let b = second.simulate(5_000_000, &mut second_rng, &tape).unwrap();
    assert_eq!(a.state, b.state);
    assert_eq!(a.births, b.births);
    assert_eq!(a.deaths, b.deaths);
    assert_eq!(first.t, second.t);
    assert_eq!(first.history.checkpoints.len(), second.history.checkpoints.len());
    for (x, y) in first.history.checkpoints.iter().zip(second.history.checkpoints.iter()) {
        assert_eq!(x.time, y.time);
        assert_eq!(x.species_individuals, y.species_individuals);
    }
}

#[test]
fn a_run_pauses_when_the_noise_is_used_up() {
    let (mut population, mut rng) = two_species(42);
    let tape = noise(43, 3);
    let report = population.simulate(5_000_000_000, &mut rng, &tape).unwrap();
    assert_eq!(report.state, RunState::Running);
    assert_eq!(report.births + report.deaths, 3);
    assert_eq!(population.history.checkpoints.len(), 4);
    assert_eq!(population.size, 20 + report.births - report.deaths);
    let more = population.simulate(5_000_000_000, &mut rng, &tape).unwrap();
    assert_eq!(more.births + more.deaths, 3);
    assert_eq!(population.history.checkpoints.len(), 7);
}

#[test]
fn a_run_past_the_horizon_does_nothing() {
    let (mut population, mut rng) = two_species(42);
    let report = population.simulate(0, &mut rng, &noise(1, 5)).unwrap();
    assert_eq!(report.state, RunState::Complete);
    assert_eq!(report.births + report.deaths, 0);
    assert_eq!(population.history.checkpoints.len(), 1);
}

#[test]
fn a_run_refuses_a_zero_wait() {
    let (mut population, mut rng) = two_species(42);
    let tape = vec![Noise { jitter_x: 0, jitter_y: 0, wait: 0 }];
    assert_eq!(population.simulate(5_000_000, &mut rng, &tape).err(), Some(SimError::InvalidDraw));
    assert_eq!(population.size, 20);
    assert_eq!(population.history.checkpoints.len(), 1);
    assert_eq!(population.t, 0);
    assert!(population.individuals.iter().all(|i| i.p_birth == 0 && i.birth_neighbor_weight == 0));
}

#[test]
fn responses_carry_checkpoints_only_when_pending() {
    let ready = WorkerResponse::initialized();
    assert_eq!(ready.status, WorkerStatus::INITIALIZED);
    assert!(ready.checkpoints.is_empty());
    let done = WorkerResponse::complete();
    assert_eq!(done.status, WorkerStatus::COMPLETE);
    assert!(done.checkpoints.is_empty());
    assert!(WorkerResponse::pending(vec![]).is_none());
    let (population, _) = two_species(1);
    let flush = WorkerResponse::pending(vec![population.get_checkpoint()]).unwrap();
    assert_eq!(flush.status, WorkerStatus::PENDING);
    assert_eq!(flush.checkpoints.len(), 1);
    assert_eq!(flush.checkpoints[0].species_individuals[0].0.len(), 10);
    let request = WorkerMessageReceived { species_list: vec![kernel_species(0, 1, 0, 0, 0, 0)], max_t: 5 };
    assert_eq!(request.species_list.len(), 1);
    assert_eq!(request.max_t, 5);
}

#[test]
fn after_a_run_each_list_holds_exactly_those_in_reach() {
    let (mut population, mut rng) = two_species(17);
    let tape = noise(18, 200);
    population.simulate(2_000_000, &mut rng, &tape).unwrap();
    let mut entries = 0;
    for me in &population.individuals {
        let species = &population.species_list[me.species];
        for other in &population.individuals {
            let near = me.id != other.id
                && species.birth_std != 0
                && me.distance(other) < species.birth_radius_max as u64;
            let listed = me.birth_distances.iter().filter(|e| e.0 == other.id).count();
            assert_eq!(listed, if near { 1 } else { 0 });
            if near {
                entries += 1;
            }
        }
        assert!(me.birth_distances.iter().all(|e| e.1 <= 1_000_000));
    }
    assert!(entries > 0);
}

#[test]
fn a_run_without_noise_is_left_initialized() {
    let (mut population, mut rng) = two_species(42);
    let report = population.simulate(5_000_000, &mut rng, &vec![]).unwrap();
    assert_eq!(report.state, RunState::Initialized);
    assert_eq!(report.births + report.deaths, 0);
    assert_eq!(population.t, 0);
    assert_eq!(population.size, 20);
    assert_eq!(population.history.checkpoints.len(), 1);
}

#[test]
fn a_barren_population_is_exhausted_even_under_a_zero_wait() {
    let mut rng = StdRng::seed_from_u64(4);
    let list = vec![kernel_species(0, 3, 0, 0, 0, 0)];
    let mut population = Population::new(list, &mut rng).unwrap();
    population.compute_initial_distances();
    let tape = vec![Noise { jitter_x: 0, jitter_y: 0, wait: 0 }];
    let report = population.simulate(5_000_000, &mut rng, &tape).unwrap();
    assert_eq!(report.state, RunState::Exhausted);
    assert_eq!(population.size, 3);
    assert_eq!(population.history.checkpoints.len(), 1);
}

fn crowded() -> (Population, StdRng) {
    let mut rng = StdRng::seed_from_u64(4);
    let mut species = Species::new(
        0, 0, 1_000_000_000_000, 25, 0, 0, 0, 0, 0, 0, 0, 1_000_000, 100_000, 0, 0,
    );
    species.derive_norms(
        KernelTable { norm: 1, profile: vec![1_000_000, 1_000_000] },
        KernelTable { norm: 0, profile: vec![] },
    );
    let mut population = Population::new(vec![species], &mut rng).unwrap();
    population.compute_initial_distances();
    (population, rng)
}

#[test]
fn a_rate_beyond_the_type_stops_the_step_and_the_run() {
    let (mut population, mut rng) = crowded();
    assert_eq!(population.individuals[0].birth_distances.len(), 24);
    assert_eq!(population.step(&mut rng, 0, 0).err(), Some(SimError::RateOverflow));
    assert_eq!(population.size, 25);
    assert_eq!(population.due_rate(), None);
    assert_eq!(
        population.simulate(5_000_000, &mut rng, &noise(1, 5)).err(),
        Some(SimError::RateOverflow)
    );
    let tape = vec![Noise { jitter_x: 0, jitter_y: 0, wait: 0 }];
    assert_eq!(
        population.simulate(5_000_000, &mut rng, &tape).err(),
        Some(SimError::RateOverflow)
    );
    assert_eq!(population.size, 25);
    assert_eq!(population.history.checkpoints.len(), 1);
}

#[test]
fn refreshed_rates_add_up_to_the_total() {
    let (mut population, _) = two_species(8);
    let due = population.due_rate();
    assert_eq!(population.individuals[0].p_birth, 0);
    population.refresh_rates();
    let mut expected: u128 = 0;
    for individual in &population.individuals {
        let births: u128 = individual.birth_distances.iter().map(|e| e.1 as u128).sum();
        let deaths: u128 = individual.death_distances.iter().map(|e| e.1 as u128).sum();
        assert_eq!(individual.p_birth, 400_000 + 100_000 * births / 500_000);
        assert_eq!(individual.p_death, 400_000 + 100_000 * deaths / 500_000);
        expected += individual.p_birth + individual.p_death + individual.p_move;
    }
    assert!(expected >= 16_000_000);
    assert_eq!(due, Some(expected as u64));
    assert_eq!(population.due_rate(), due);
    assert_eq!(population.size, 20);
}

#[test]
fn the_last_checkpoint_of_a_run_is_the_population() {
    let (mut population, mut rng) = two_species(42);
    let first = population.history.checkpoints[0].clone();
    assert_eq!(first.species_individuals.len(), 2);
    assert_eq!(first.species_individuals[0].0.len(), 10);
    assert_eq!(first.species_individuals[1].1.len(), 10);
    let report = population.simulate(1_000_000, &mut rng, &noise(43, 20_000)).unwrap();
    assert_eq!(report.state, RunState::Complete);
    let last = population.history.checkpoints.last().unwrap();
    let now = population.get_checkpoint();
    assert_eq!(last.time, now.time);
    assert_eq!(last.time, population.t);
    assert_eq!(last.species_individuals, now.species_individuals);
    let points: usize = last.species_individuals.iter().map(|g| g.0.len()).sum();
    assert_eq!(points, population.size);
}

#[test]
fn a_run_stops_before_the_event_when_the_clock_would_overflow() {
    let (mut population, mut rng) = two_species(42);
    population.history.checkpoints[0].time = 0;
    population.t = u64::MAX - 5;
    let before: Vec<(usize, u64, u64)> =
        population.individuals.iter().map(|i| (i.id, i.x_coord, i.y_coord)).collect();
    let tape = vec![Noise { jitter_x: 0, jitter_y: 0, wait: u64::MAX }];
    assert_eq!(population.simulate(u64::MAX, &mut rng, &tape).err(), Some(SimError::TimeOverflow));
    let after: Vec<(usize, u64, u64)> =
        population.individuals.iter().map(|i| (i.id, i.x_coord, i.y_coord)).collect();
    assert_eq!(before, after);
    assert_eq!(population.size, 20);
    assert_eq!(population.t, u64::MAX - 5);
    assert_eq!(population.history.checkpoints.len(), 1);
}

#[test]
fn a_run_over_one_entry_of_noise_executes_one_event() {
    let (mut population, mut rng) = two_species(42);
    let rate = population.due_rate().unwrap();
    assert!(rate >= 16_000_000);
    let tape = vec![Noise { jitter_x: 250_000, jitter_y: -250_000, wait: 693_147 }];
    let report = population.simulate(5_000_000, &mut rng, &tape).unwrap();
    assert_eq!(report.state, RunState::Running);
    assert_eq!(report.births + report.deaths, 1);
    assert_eq!(population.size, 20 + report.births - report.deaths);
    assert_eq!(population.individuals.len(), population.size);
    assert_eq!(population.t as u128, waiting_time(rate, 693_147));
    assert_eq!(population.history.checkpoints.len(), 2);
    assert_eq!(population.history.checkpoints[1].time, population.t);
    if report.births == 1 {
        assert_eq!(population.individuals.last().unwrap().id, 20);
        assert_eq!(population.individuals.last().unwrap().p_birth, 0);
    } else {
        assert!(population.individuals.iter().all(|i| i.id < 20));
    }
    let survivor = &population.individuals[3];
    assert!(survivor.p_birth >= 400_000 && survivor.p_death >= 400_000);
}
