use neuroevo::fx::FX_ONE;
use neuroevo::nn::ActivationFunc;
use neuroevo::player::Brain;
use neuroevo::population::{AutoSwitch, Population, select_parent, sort_indices_desc};
use neuroevo::rng::RandomSource;

const DIMS: (i64, i64) = (800 * FX_ONE, 800 * FX_ONE);

fn small_pop(size: usize, seed: u64) -> (Population, RandomSource) {
    let mut rng = RandomSource::new(seed);
    let p = Population::new(
        size,
        Some(AutoSwitch::BestAlive),
        vec![4, 0, 0],
        50_000,
        ActivationFunc::ReLU,
        DIMS,
        &mut rng,
    );
    (p, rng)
}

#[test]
fn new_population_has_the_requested_size() {
    let (p, _) = small_pop(7, 1);
    assert_eq!(p.worlds.len(), 7);
    assert_eq!(p.gen, 0);
    assert_eq!(p.track, 0);
    for w in &p.worlds {
        assert!(matches!(w.player.brain, Brain::Ai(_)));
    }
}

#[test]
fn generational_replacement_preserves_the_size() {
    let (mut p, mut rng) = small_pop(10, 2);
    p.next_gen(DIMS, &mut rng);
    assert_eq!(p.worlds.len(), 10);
    assert_eq!(p.track, 0);
}

#[test]
fn a_population_of_one_completes_a_replacement() {
    let (mut p, mut rng) = small_pop(1, 3);
    p.next_gen(DIMS, &mut rng);
    assert_eq!(p.worlds.len(), 1);
    assert!(matches!(p.worlds[0].player.brain, Brain::Ai(_)));
}

#[test]
fn replacement_works_on_a_zero_fitness_cohort() {
    let (mut p, mut rng) = small_pop(5, 4);
    for w in &p.worlds {
        assert_eq!(w.fitness, 0);
    }
    p.next_gen(DIMS, &mut rng);
    assert_eq!(p.worlds.len(), 5);
}

#[test]
fn ranking_sorts_by_fitness_descending() {
    let (mut p, _) = small_pop(4, 5);
    p.worlds[0].fitness = 5 * FX_ONE;
    p.worlds[1].fitness = 50 * FX_ONE;
    p.worlds[2].fitness = 7 * FX_ONE;
    p.worlds[3].fitness = 50 * FX_ONE;
    let ord = sort_indices_desc(&p.worlds);
    assert_eq!(ord.len(), 4);
    assert_eq!(ord[0], 1);
    assert_eq!(ord[1], 3);
    assert_eq!(ord[2], 2);
    assert_eq!(ord[3], 0);
}

#[test]
fn roulette_never_picks_a_zero_fitness_individual() {
    let (mut p, mut rng) = small_pop(2, 6);
    p.worlds[0].fitness = 0;
    p.worlds[1].fitness = 10 * FX_ONE;
    let ord = vec![1usize, 0];
    let total = 10 * FX_ONE as u128;
    for _ in 0..200 {
        let idx = select_parent(&p.worlds, &ord, total, &mut rng);
        assert_eq!(idx, 1);
    }
}

#[test]
fn roulette_degenerate_sum_falls_back_to_the_top_rank() {
    let (mut p, mut rng) = small_pop(2, 7);
    p.worlds[0].fitness = 0;
    p.worlds[1].fitness = 0;
    let ord = vec![0usize, 1];
    let idx = select_parent(&p.worlds, &ord, 0, &mut rng);
    assert_eq!(idx, 0);
}

#[test]
fn tracking_the_best_picks_the_maximal_fitness() {
    let (mut p, _) = small_pop(3, 8);
    p.worlds[0].fitness = 5 * FX_ONE;
    p.worlds[1].fitness = 50 * FX_ONE;
    p.worlds[2].fitness = 7 * FX_ONE;
    p.track_best(true);
    assert_eq!(p.track, 1);
    assert!(p.worlds[1].track);
}

#[test]
fn hot_patching_the_mutation_rate_reaches_every_network() {
    let (mut p, _) = small_pop(4, 9);
    p.change_mut(777_000);
    for w in &p.worlds {
        match &w.player.brain {
            Brain::Ai(nn) => assert_eq!(nn.mut_rate, 777_000),
            Brain::Human => panic!("population worlds must be AI-driven"),
        }
    }
}

#[test]
fn hot_patching_the_activation_reaches_every_network() {
    let (mut p, _) = small_pop(4, 10);
    p.change_activ(ActivationFunc::Sigmoid);
    for w in &p.worlds {
        match &w.player.brain {
            Brain::Ai(nn) => assert_eq!(nn.activ_func, ActivationFunc::Sigmoid),
            Brain::Human => panic!("population worlds must be AI-driven"),
        }
    }
}

#[test]
fn ticking_until_extinction_triggers_a_new_generation() {
    let (mut p, mut rng) = small_pop(2, 11);
    let mut ticks = 0;
    while p.gen == 0 && ticks < 5000 {
        p.update(DIMS, &mut rng);
        ticks += 1;
    }
    assert_eq!(p.gen, 1);
    assert_eq!(p.worlds.len(), 2);
}

#[test]
fn replacement_carries_the_sole_brain_forward_unmutated() {
    let (mut p, mut rng) = small_pop(1, 12);
    let before = match &p.worlds[0].player.brain {
        Brain::Ai(nn) => nn.weights.clone(),
        Brain::Human => panic!("population worlds must be AI-driven"),
    };
    p.next_gen(DIMS, &mut rng);
    match &p.worlds[0].player.brain {
        Brain::Ai(nn) => assert_eq!(nn.weights, before),
        Brain::Human => panic!("population worlds must be AI-driven"),
    }
}

#[test]
fn terminal_pairs_stay_frozen_while_others_tick() {
    let (mut p, mut rng) = small_pop(3, 13);
    p.worlds[0].over = true;
    p.worlds[0].fitness = 7 * FX_ONE;
    p.worlds[0].score = 7;
    p.update(DIMS, &mut rng);
    assert!(p.worlds[0].over);
    assert_eq!(p.worlds[0].fitness, 7 * FX_ONE);
    assert_eq!(p.worlds[0].score, 7);
    assert_eq!(p.worlds[0].player.lifespan, 0);
    assert_eq!(p.worlds[1].player.lifespan, 1);
    assert_eq!(p.worlds[2].player.lifespan, 1);
}
