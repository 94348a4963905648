use neuroevo::fx::{FX_LIM, FX_ONE, Vec2, fx_add, fx_div, fx_mul, fx_sub, isqrt_u128};

#[test]
fn mul_is_exact_on_whole_units() {
    assert_eq!(fx_mul(2 * FX_ONE, 3 * FX_ONE), 6 * FX_ONE);
    assert_eq!(fx_mul(-2 * FX_ONE, 3 * FX_ONE), -6 * FX_ONE);
    assert_eq!(fx_mul(-2 * FX_ONE, -3 * FX_ONE), 6 * FX_ONE);
}

#[test]
fn mul_truncates_toward_zero() {
    assert_eq!(fx_mul(1, 1), 0);
    assert_eq!(fx_mul(-1, 1), 0);
    assert_eq!(fx_mul(1_500_000, 1_500_000), 2_250_000);
}

#[test]
fn div_truncates_toward_zero() {
    assert_eq!(fx_div(FX_ONE, 3 * FX_ONE), 333_333);
    assert_eq!(fx_div(-FX_ONE, 3 * FX_ONE), -333_333);
    assert_eq!(fx_div(FX_ONE, -3 * FX_ONE), -333_333);
    assert_eq!(fx_div(10 * FX_ONE, 2 * FX_ONE), 5 * FX_ONE);
}

#[test]
fn add_and_sub_saturate_at_the_band() {
    assert_eq!(fx_add(FX_LIM, FX_LIM), FX_LIM);
    assert_eq!(fx_sub(-FX_LIM, FX_LIM), -FX_LIM);
    assert_eq!(fx_add(5, 7), 12);
    assert_eq!(fx_sub(5, 7), -2);
}

#[test]
fn integer_square_root_is_exact() {
    assert_eq!(isqrt_u128(0), 0);
    assert_eq!(isqrt_u128(1), 1);
    assert_eq!(isqrt_u128(15), 3);
    assert_eq!(isqrt_u128(16), 4);
    assert_eq!(isqrt_u128(1_000_000_000_000), 1_000_000);
}

#[test]
fn vector_norm_of_a_pythagorean_triple() {
    let v = Vec2 { x: 3 * FX_ONE, y: 4 * FX_ONE };
    assert_eq!(v.norm(), 5 * FX_ONE);
}

#[test]
fn squared_distance_is_exact() {
    let a = Vec2 { x: FX_ONE, y: 0 };
    let b = Vec2 { x: 0, y: FX_ONE };
    assert_eq!(a.dist_sq(b), 2 * (FX_ONE as u128) * (FX_ONE as u128));
}
