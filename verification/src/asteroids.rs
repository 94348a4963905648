//! Asteroids: drifting circular obstacles with wrap-around motion.

use vstd::prelude::*;

use crate::fx::{
    FX_LIM, FX_ONE, Vec2, abs_int, div_toward_zero, fx_add, fx_mul, spec_dist_sq, spec_fx_add,
    spec_fx_mul, vec2_band,
};
use crate::rng::RandomSource;

verus! {

/// Upper bound on a world dimension (width or height), in fixed point.
pub const DIM_LIM: i64 = 4_000_000_000;

/// The three asteroid sizes; a large one splits into two medium ones, a
/// medium one into two small ones, and a small one vanishes when hit.
#[derive(Clone, Copy, Debug, PartialEq, Eq, Structural)]
pub enum AsteroidSize {
    Large,
    Medium,
    Small,
}

/// A circular obstacle.
#[derive(Clone, Copy, Debug)]
pub struct Asteroid {
    pub pos: Vec2,
    pub vel: Vec2,
    pub size: AsteroidSize,
    pub radius: i64,
    pub alive: bool,
}

/// Wrap-around of one coordinate: a point beyond the limit on either side
/// reappears on the opposite side.
pub open spec fn spec_wrap_coord(q: int, lim: int) -> int {
    if q > lim || q < -lim {
        -q
    } else {
        q
    }
}

/// Where one physics step takes an asteroid: drift by its velocity, then
/// wrap each coordinate at the border inflated by the radius.
pub open spec fn spec_drift_pos(a: Asteroid, dims: (i64, i64)) -> Vec2 {
    Vec2 {
        x: spec_wrap_coord(
            spec_fx_add(a.pos.x as int, a.vel.x as int),
            spec_fx_add(spec_fx_mul(dims.0 as int, 500_000), a.radius as int),
        ) as i64,
        y: spec_wrap_coord(
            spec_fx_add(a.pos.y as int, a.vel.y as int),
            spec_fx_add(spec_fx_mul(dims.1 as int, 500_000), a.radius as int),
        ) as i64,
    }
}

/// The asteroid as it stands after this tick's drift: same size, radius,
/// velocity and liveness, at the wrapped position.
pub open spec fn spec_drifted(a: Asteroid, dims: (i64, i64)) -> Asteroid {
    Asteroid { pos: spec_drift_pos(a, dims), ..a }
}

/// The radius range each size draws from.
pub open spec fn radius_for(size: AsteroidSize, radius: int) -> bool {
    match size {
        AsteroidSize::Large => 50 * FX_ONE <= radius < 65 * FX_ONE,
        AsteroidSize::Medium => 35 * FX_ONE <= radius < 50 * FX_ONE,
        AsteroidSize::Small => radius == 25 * FX_ONE,
    }
}

impl Asteroid {
    /// Bands and the radius range every asteroid satisfies.
    pub open spec fn wf(self) -> bool {
        &&& vec2_band(self.pos)
        &&& vec2_band(self.vel)
        &&& 25 * FX_ONE <= self.radius < 65 * FX_ONE
    }

    /// A fresh asteroid at a random edge of the field, drifting inward:
    /// its radius is drawn from the size's range, its position sits just
    /// outside one border, and its velocity is a small pull toward the
    /// center plus a random component per axis.
    pub fn new(size: AsteroidSize, dims: (i64, i64), rng: &mut RandomSource) -> (r: Asteroid)
        requires
            0 < dims.0 <= DIM_LIM,
            0 < dims.1 <= DIM_LIM,
        ensures
            r.wf(),
            r.alive,
            r.size == size,
            radius_for(size, r.radius as int),
            abs_int(r.pos.x as int) == spec_fx_add(
                spec_fx_mul(dims.0 as int, 500_000),
                r.radius as int,
            ) || abs_int(r.pos.y as int) == spec_fx_add(
                spec_fx_mul(dims.1 as int, 500_000),
                r.radius as int,
            ),
            exists|cx: int, cy: int|
                #![trigger spec_fx_add(spec_fx_mul(r.pos.x as int, -1_000), cx), spec_fx_add(
                    spec_fx_mul(r.pos.y as int, -1_000),
                    cy,
                )]
                (300_000 <= cx < 1_000_000 || -1_000_000 < cx <= -300_000) && (300_000 <= cy
                    < 1_000_000 || -1_000_000 < cy <= -300_000) && r.vel.x == spec_fx_add(
                    spec_fx_mul(r.pos.x as int, -1_000),
                    cx,
                ) && r.vel.y == spec_fx_add(spec_fx_mul(r.pos.y as int, -1_000), cy),
    {
        let radius: i64 = match size {
            AsteroidSize::Large => 50 * FX_ONE + rng.next_below((15 * FX_ONE) as u64) as i64,
            AsteroidSize::Medium => 35 * FX_ONE + rng.next_below((15 * FX_ONE) as u64) as i64,
            AsteroidSize::Small => 25 * FX_ONE,
        };
        let rx: i64 = if rng.next_below(2) == 0 {
            -FX_ONE
        } else {
            FX_ONE
        };
        let ry: i64 = -FX_ONE + rng.next_below((2 * FX_ONE) as u64) as i64;
        let (ex, ey): (i64, i64) = if rng.next_below(2) == 0 {
            (ry, rx)
        } else {
            (rx, ry)
        };
        let half_w = fx_mul(dims.0, 500_000);
        let half_h = fx_mul(dims.1, 500_000);
        proof {
            assert(0 <= half_w <= 2_000_000_000 && 0 <= half_h <= 2_000_000_000)
                by (nonlinear_arith)
                requires
                    half_w == spec_fx_mul(dims.0 as int, 500_000),
                    half_h == spec_fx_mul(dims.1 as int, 500_000),
                    0 < dims.0 <= DIM_LIM,
                    0 < dims.1 <= DIM_LIM,
            ;
        }
        let lim_x = fx_add(half_w, radius);
        let lim_y = fx_add(half_h, radius);
        let pos = Vec2 { x: fx_mul(ex, lim_x), y: fx_mul(ey, lim_y) };
        proof {
            let lx = lim_x as int;
            let ly = lim_y as int;
            vstd::arithmetic::div_mod::lemma_div_multiples_vanish(lx, 1_000_000);
            vstd::arithmetic::div_mod::lemma_div_multiples_vanish(ly, 1_000_000);
            if ex == FX_ONE || ex == -FX_ONE {
                let p = ex as int * lx;
                if ex == FX_ONE {
                    assert(p == 1_000_000 * lx) by (nonlinear_arith)
                        requires
                            p == ex as int * lx,
                            ex == 1_000_000,
                    ;
                    assert(div_toward_zero(p, FX_ONE as int) == lx);
                } else {
                    assert(p == -(1_000_000 * lx)) by (nonlinear_arith)
                        requires
                            p == ex as int * lx,
                            ex == -1_000_000,
                    ;
                    assert(div_toward_zero(p, FX_ONE as int) == -lx);
                }
                assert(abs_int(pos.x as int) == lx);
            } else {
                assert(ey == FX_ONE || ey == -FX_ONE);
                let p = ey as int * ly;
                if ey == FX_ONE {
                    assert(p == 1_000_000 * ly) by (nonlinear_arith)
                        requires
                            p == ey as int * ly,
                            ey == 1_000_000,
                    ;
                    assert(div_toward_zero(p, FX_ONE as int) == ly);
                } else {
                    assert(p == -(1_000_000 * ly)) by (nonlinear_arith)
                        requires
                            p == ey as int * ly,
                            ey == -1_000_000,
                    ;
                    assert(div_toward_zero(p, FX_ONE as int) == -ly);
                }
                assert(abs_int(pos.y as int) == ly);
            }
        }
        let sx: i64 = if rng.next_below(2) == 0 {
            -1
        } else {
            1
        };
        let sy: i64 = if rng.next_below(2) == 0 {
            -1
        } else {
            1
        };
        let ux: i64 = 300_000 + rng.next_below(700_000) as i64;
        let uy: i64 = 300_000 + rng.next_below(700_000) as i64;
        let vel = Vec2 {
            x: fx_add(fx_mul(pos.x, -1_000), sx * ux),
            y: fx_add(fx_mul(pos.y, -1_000), sy * uy),
        };
        let built = Asteroid { pos, vel, size, radius, alive: true };
        proof {
            let cx = (sx * ux) as int;
            let cy = (sy * uy) as int;
            assert(built.vel.x == spec_fx_add(spec_fx_mul(built.pos.x as int, -1_000), cx));
            assert(built.vel.y == spec_fx_add(spec_fx_mul(built.pos.y as int, -1_000), cy));
            assert(300_000 <= cx < 1_000_000 || -1_000_000 < cx <= -300_000);
            assert(300_000 <= cy < 1_000_000 || -1_000_000 < cy <= -300_000);
        }
        built
    }

    /// A fragment: a random asteroid of the given size, re-placed at an
    /// exact position with an exact velocity.
    pub fn new_from(pos: Vec2, vel: Vec2, size: AsteroidSize, dims: (i64, i64), rng: &mut RandomSource)
        -> (r: Asteroid)
        requires
            0 < dims.0 <= DIM_LIM,
            0 < dims.1 <= DIM_LIM,
            vec2_band(pos),
            vec2_band(vel),
        ensures
            r.wf(),
            r.alive,
            r.size == size,
            radius_for(size, r.radius as int),
            r.pos == pos,
            r.vel == vel,
    {
        let mut a = Asteroid::new(size, dims, rng);
        a.pos = pos;
        a.vel = vel;
        a
    }

    /// A random edge asteroid whose velocity is aimed at a target point,
    /// scaled by the given speed.
    pub fn new_to(target: Vec2, speed: i64, size: AsteroidSize, dims: (i64, i64), rng: &mut RandomSource)
        -> (r: Asteroid)
        requires
            0 < dims.0 <= DIM_LIM,
            0 < dims.1 <= DIM_LIM,
            vec2_band(target),
            0 <= speed <= FX_LIM,
        ensures
            r.wf(),
            r.alive,
            r.size == size,
            radius_for(size, r.radius as int),
            r.vel.x == spec_fx_mul(
                spec_fx_add(target.x as int, -(r.pos.x as int)),
                spec_fx_mul(2_000, speed as int),
            ),
            r.vel.y == spec_fx_mul(
                spec_fx_add(target.y as int, -(r.pos.y as int)),
                spec_fx_mul(2_000, speed as int),
            ),
    {
        let mut a = Asteroid::new(size, dims, rng);
        let k = fx_mul(2_000, speed);
        a.vel = target.minus(a.pos).scale(k);
        a
    }

    /// Whether a circle of radius `rad` at `pos` touches this asteroid.
    pub fn check_collision(&self, pos: Vec2, rad: i64) -> (r: bool)
        requires
            self.wf(),
            vec2_band(pos),
            0 <= rad <= FX_LIM,
        ensures
            r == (spec_dist_sq(pos, self.pos) <= (self.radius + rad) * (self.radius + rad)),
    {
        let d = pos.dist_sq(self.pos);
        let reach = (self.radius + rad) as u128;
        proof {
            assert(reach * reach <= u128::MAX && reach * reach == (self.radius + rad) * (self.radius
                + rad)) by (nonlinear_arith)
                requires
                    reach == self.radius + rad,
                    0 <= reach <= 2 * FX_LIM,
            ;
        }
        d <= reach * reach
    }

    /// One physics step: drift by the velocity, then wrap each coordinate
    /// at the border inflated by the radius.
    pub fn update(&mut self, dims: (i64, i64))
        requires
            old(self).wf(),
            0 < dims.0 <= DIM_LIM,
            0 < dims.1 <= DIM_LIM,
        ensures
            final(self).wf(),
            *final(self) == spec_drifted(*old(self), dims),
            final(self).pos == spec_drift_pos(*old(self), dims),
    {
        let q = self.pos.plus(self.vel);
        let lim_x = fx_add(fx_mul(dims.0, 500_000), self.radius);
        let lim_y = fx_add(fx_mul(dims.1, 500_000), self.radius);
        let nx = if q.x > lim_x || q.x < -lim_x {
            -q.x
        } else {
            q.x
        };
        let ny = if q.y > lim_y || q.y < -lim_y {
            -q.y
        } else {
            q.y
        };
        self.pos = Vec2 { x: nx, y: ny };
    }
}

} // verus!
