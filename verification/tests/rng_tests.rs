use neuroevo::fx::FX_ONE;
use neuroevo::rng::RandomSource;

#[test]
fn draws_stay_below_their_bound() {
    let mut rng = RandomSource::new(0);
    assert_eq!(rng.next_below(1), 0);
    for _ in 0..200 {
        assert!(rng.next_below(7) < 7);
        assert!(rng.next_below_u128(1000) < 1000);
    }
}

#[test]
fn draws_are_not_constant() {
    let mut rng = RandomSource::new(1);
    let mut seen_different = false;
    let first = rng.next_below(1_000_000);
    for _ in 0..50 {
        if rng.next_below(1_000_000) != first {
            seen_different = true;
        }
    }
    assert!(seen_different);
}

#[test]
fn the_same_seed_reproduces_the_stream() {
    let mut a = RandomSource::new(123);
    let mut b = RandomSource::new(123);
    for _ in 0..50 {
        assert_eq!(a.next_below(1_000_000_000), b.next_below(1_000_000_000));
    }
}

#[test]
fn unit_draws_and_normal_draws_stay_in_range() {
    let mut rng = RandomSource::new(2);
    for _ in 0..200 {
        let u = rng.next_unit();
        assert!(0 <= u && u < FX_ONE);
        let z = rng.next_standard_normal();
        assert!(-6 * FX_ONE <= z && z <= 6 * FX_ONE);
    }
}
