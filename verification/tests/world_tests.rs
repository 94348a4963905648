use neuroevo::asteroids::{Asteroid, AsteroidSize};
use neuroevo::fx::{FX_ONE, Vec2};
use neuroevo::nn::ActivationFunc;
use neuroevo::player::{Brain, NetConfig, Player, decode_actions};
use neuroevo::rng::RandomSource;
use neuroevo::world::{World, compute_fitness};

const DIMS: (i64, i64) = (800 * FX_ONE, 800 * FX_ONE);

fn still_asteroid(x: i64, y: i64, radius: i64) -> Asteroid {
    Asteroid {
        pos: Vec2 { x, y },
        vel: Vec2 { x: 0, y: 0 },
        size: AsteroidSize::Small,
        radius,
        alive: true,
    }
}

#[test]
fn fitness_formula_exact_value() {
    // hits = 3, shots = 4, lifespan = 600: (3/4)^2 * 600 = 337.5.
    assert_eq!(compute_fitness(3, 4, 600), 337_500_000);
}

#[test]
fn fitness_floors_the_shot_count_at_one() {
    assert_eq!(compute_fitness(2, 0, 50), 200 * FX_ONE);
    assert_eq!(compute_fitness(0, 0, 100), 0);
}

#[test]
fn sensing_encodes_distance_bearing_velocity_and_heading() {
    let mut rng = RandomSource::new(1);
    let p = Player::new(None, &mut rng);
    // An asteroid dead ahead (the ship starts pointing up, toward -y).
    let a = still_asteroid(0, -100 * FX_ONE, 25 * FX_ONE);
    let inputs = p.sense(&a, DIMS);
    // distance 100 normalized by the field height 800; bearing sine zero
    // (dead ahead); no relative velocity; heading angle 1.5 pi over tau.
    assert_eq!(inputs, vec![125_000, 0, 0, 0, 750_000]);
}

#[test]
fn decoding_uses_the_saturating_threshold_for_sigmoid_only() {
    let outs = vec![900_000, 850_000, 100_000, 0];
    assert_eq!(
        decode_actions(&outs, ActivationFunc::Sigmoid),
        vec![true, false, false, false]
    );
    assert_eq!(decode_actions(&outs, ActivationFunc::ReLU), vec![true, true, true, false]);
    assert_eq!(decode_actions(&outs, ActivationFunc::Tanh), vec![true, true, true, false]);
}

#[test]
fn asteroid_collision_is_an_exact_circle_test() {
    let a = still_asteroid(0, 0, 25 * FX_ONE);
    // 30 units away: outside the bare radius, inside radius + 8.
    assert!(!a.check_collision(Vec2 { x: 30 * FX_ONE, y: 0 }, 0));
    assert!(a.check_collision(Vec2 { x: 30 * FX_ONE, y: 0 }, 8 * FX_ONE));
    assert!(a.check_collision(Vec2 { x: 25 * FX_ONE, y: 0 }, 0));
}

#[test]
fn asteroid_wraps_at_the_inflated_border() {
    let mut a = still_asteroid(0, 0, 25 * FX_ONE);
    a.pos = Vec2 { x: 424 * FX_ONE, y: 0 };
    a.vel = Vec2 { x: 2 * FX_ONE, y: 0 };
    // border: 400 + radius 25 = 425; 426 exceeds it and flips.
    a.update(DIMS);
    assert_eq!(a.pos, Vec2 { x: -426 * FX_ONE, y: 0 });
    assert_eq!(a.vel, Vec2 { x: 2 * FX_ONE, y: 0 });
}

#[test]
fn fresh_world_has_five_asteroids_and_zero_outcome() {
    let mut rng = RandomSource::new(9);
    let w = World::new(None, DIMS, &mut rng);
    assert_eq!(w.asteroids.len(), 5);
    assert_eq!(w.score, 0);
    assert_eq!(w.fitness, 0);
    assert!(!w.over);
}

#[test]
fn one_tick_advances_lifespan_and_refreshes_fitness() {
    let mut rng = RandomSource::new(9);
    let mut w = World::new(None, DIMS, &mut rng);
    w.update(DIMS, &vec![false, false, false, false], &mut rng);
    assert_eq!(w.player.lifespan, 1);
    assert_eq!(w.fitness, compute_fitness(w.score, w.player.shots, w.player.lifespan));
}

#[test]
fn ai_agent_is_retired_after_the_lifespan_cap() {
    let mut rng = RandomSource::new(13);
    let cfg = NetConfig { hlayers: vec![4], mut_rate: 0, activ: ActivationFunc::Tanh };
    let mut w = World::new(Some(cfg), DIMS, &mut rng);
    assert!(matches!(w.player.brain, Brain::Ai(_)));
    w.player.lifespan = 3601;
    w.update(DIMS, &vec![false, false, false, false], &mut rng);
    assert!(w.over);
}

#[test]
fn human_agent_outlives_the_lifespan_cap() {
    let mut rng = RandomSource::new(13);
    let mut w = World::new(None, DIMS, &mut rng);
    // Park every asteroid far away so no collision can end the run.
    for a in &mut w.asteroids {
        a.pos = Vec2 { x: 400 * FX_ONE, y: 400 * FX_ONE };
        a.vel = Vec2 { x: 0, y: 0 };
    }
    w.player.lifespan = 5000;
    w.update(DIMS, &vec![false, false, false, false], &mut rng);
    assert!(!w.over);
}

#[test]
fn lifespan_cap_retires_an_ai_agent_even_in_an_empty_field() {
    let mut rng = RandomSource::new(17);
    let cfg = NetConfig { hlayers: vec![4], mut_rate: 0, activ: ActivationFunc::Tanh };
    let mut w = World::new(Some(cfg), DIMS, &mut rng);
    w.asteroids.clear();
    w.player.lifespan = 3601;
    w.update(DIMS, &vec![false, false, false, false], &mut rng);
    assert!(w.over);
    assert!(!w.player.alive);
}

#[test]
fn sensing_distinguishes_ahead_from_behind() {
    let mut rng = RandomSource::new(1);
    let p = Player::new(None, &mut rng);
    // Dead ahead (the ship points toward -y): bearing zero.
    let ahead = still_asteroid(0, -100 * FX_ONE, 25 * FX_ONE);
    assert_eq!(p.sense(&ahead, DIMS)[1], 0);
    // Dead behind: the encoding saturates at two.
    let behind = still_asteroid(0, 100 * FX_ONE, 25 * FX_ONE);
    assert_eq!(p.sense(&behind, DIMS)[1], 2 * FX_ONE);
    // Directly to the right of the heading: the bearing's sine is one.
    let right = still_asteroid(100 * FX_ONE, 0, 25 * FX_ONE);
    assert_eq!(p.sense(&right, DIMS)[1], FX_ONE);
}

#[test]
fn a_struck_large_asteroid_splits_into_two_medium_fragments() {
    let mut rng = RandomSource::new(21);
    let mut w = World::new(None, DIMS, &mut rng);
    w.asteroids.clear();
    w.asteroids.push(Asteroid {
        pos: Vec2 { x: 100 * FX_ONE, y: 0 },
        vel: Vec2 { x: 0, y: 0 },
        size: AsteroidSize::Large,
        radius: 50 * FX_ONE,
        alive: true,
    });
    w.player.bullets.push(neuroevo::player::Bullet {
        pos: Vec2 { x: 100 * FX_ONE, y: 0 },
        vel: Vec2 { x: 0, y: 0 },
        alive: true,
    });
    w.update(DIMS, &vec![false, false, false, false], &mut rng);
    assert_eq!(w.score, 1);
    assert_eq!(w.asteroids.len(), 2);
    for a in &w.asteroids {
        assert!(a.alive);
        assert_eq!(a.size, AsteroidSize::Medium);
        assert_eq!(a.pos, Vec2 { x: 100 * FX_ONE, y: 0 });
    }
}
