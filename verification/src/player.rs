//! The agent: a ship steered by a neural network or by a human.
//!
//! Per tick the agent senses its environment into a five-entry numeric
//! vector, runs inference, decodes the four outputs into independent action
//! flags (turn right, turn left, thrust, fire), and advances its kinematics.
//! Heading is kept as a unit-length direction vector that is rotated
//! incrementally by a fixed turn angle; the angle itself is tracked
//! separately for the fifth sensor entry.
//!
//! Counters start at zero: the shot counter counts actual shots fired and
//! the fitness denominator floors it at one (see `world`).

use vstd::prelude::*;

use crate::asteroids::{Asteroid, DIM_LIM};
use crate::fx::{
    FX_LIM, FX_ONE, Vec2, abs_int, fx_add, fx_div, fx_mul, fx_sub, spec_dist_sq, spec_fx_add,
    spec_fx_div, spec_fx_mul, spec_fx_sub, sqrt_floor, vec2_band,
};
use crate::nn::{ActivationFunc, MAX_LAYERS, MAX_WIDTH, NN, seq_int, spec_threshold, threshold};
use crate::rng::RandomSource;

verus! {

/// Ticks after which an AI-driven agent is retired.
pub const LIFESPAN_CAP: u32 = 3600;

/// Minimum ticks between two shots.
pub const SHOT_INTERVAL: u32 = 18;

/// Hard cap that keeps the tick counters from overflowing.
pub const COUNTER_LIM: u32 = 1_000_000_000;

/// One full turn, in fixed-point radians.
pub const TAU_FX: i64 = 6_283_185;

/// Initial heading angle: three quarter turns (pointing up).
pub const ROT_START: i64 = 4_712_389;

/// Turn step per tick, in fixed-point radians.
pub const ROT_STEP: i64 = 100_000;

/// Cosine of the turn step.
pub const COS_STEP: i64 = 995_004;

/// Sine of the turn step.
pub const SIN_STEP: i64 = 99_833;

/// Forward acceleration while thrusting.
pub const ACCEL: i64 = 140_000;

/// Quadratic drag coefficient.
pub const DRAG: i64 = 1_000;

/// Bullet speed relative to the ship.
pub const BULLET_SPEED: i64 = 8_500_000;

/// Ship collision radius.
pub const PLAYER_RADIUS: i64 = 8_000_000;

/// Control source of an agent: a human at the keys, or an owned network.
pub enum Brain {
    Human,
    Ai(NN),
}

/// Network construction parameters, every field explicit.
pub struct NetConfig {
    pub hlayers: Vec<usize>,
    pub mut_rate: i64,
    pub activ: ActivationFunc,
}

/// A projectile.
#[derive(Clone, Copy, Debug)]
pub struct Bullet {
    pub pos: Vec2,
    pub vel: Vec2,
    pub alive: bool,
}

/// The agent state.
pub struct Player {
    pub pos: Vec2,
    pub vel: Vec2,
    pub acc: i64,
    pub dir: Vec2,
    pub rot: i64,
    pub bullets: Vec<Bullet>,
    pub asteroid: Option<Asteroid>,
    pub inputs: Vec<i64>,
    pub outputs: Vec<i64>,
    pub last_shot: u32,
    pub brain: Brain,
    pub alive: bool,
    pub lifespan: u32,
    pub shots: u32,
}

/// The non-zero entries of a width list, in order.
pub open spec fn nonzeros(s: Seq<usize>) -> Seq<usize>
    decreases s.len(),
{
    if s.len() == 0 {
        Seq::empty()
    } else if s[0] == 0 {
        nonzeros(s.drop_first())
    } else {
        seq![s[0]] + nonzeros(s.drop_first())
    }
}

/// The full logical topology an agent's network gets: five sensor inputs,
/// the non-zero hidden widths, four action outputs.
pub open spec fn spec_full_config(hl: Seq<usize>) -> Seq<usize> {
    seq![5usize] + nonzeros(hl) + seq![4usize]
}

/// The stored, bias-augmented form of a logical topology.
pub open spec fn spec_aug_config(c: Seq<usize>) -> Seq<usize> {
    Seq::new(c.len(), |i: int| if i + 1 < c.len() {
        (c[i] + 1) as usize
    } else {
        c[i]
    })
}

/// Whether a brain is a network.
pub open spec fn is_ai(b: Brain) -> bool {
    b is Ai
}

/// A tick counter incremented up to its hard cap.
pub open spec fn inc_cap(x: int) -> int {
    if x < COUNTER_LIM {
        x + 1
    } else {
        x
    }
}

/// The heading angle one turn step clockwise, wrapped into `[0, TAU)`.
pub open spec fn spec_rot_plus(rot: int) -> int {
    if rot + ROT_STEP >= TAU_FX {
        rot + ROT_STEP - TAU_FX
    } else {
        rot + ROT_STEP
    }
}

/// The heading angle one turn step counter-clockwise, wrapped into `[0, TAU)`.
pub open spec fn spec_rot_minus(rot: int) -> int {
    if rot - ROT_STEP < 0 {
        rot - ROT_STEP + TAU_FX
    } else {
        rot - ROT_STEP
    }
}

/// The direction vector rotated by one turn step; `sgn` picks the sense.
pub open spec fn spec_dir_step(d: Vec2, sgn: int) -> Vec2 {
    let s = sgn * SIN_STEP;
    Vec2 {
        x: spec_fx_sub(spec_fx_mul(d.x as int, COS_STEP as int), spec_fx_mul(d.y as int, s)) as i64,
        y: spec_fx_add(spec_fx_mul(d.x as int, s), spec_fx_mul(d.y as int, COS_STEP as int)) as i64,
    }
}

/// Heading after applying the right and left turn flags, in that order.
pub open spec fn spec_turned(rot: int, d: Vec2, right: bool, left: bool) -> (int, Vec2) {
    let r1 = if right {
        spec_rot_plus(rot)
    } else {
        rot
    };
    let d1 = if right {
        spec_dir_step(d, 1)
    } else {
        d
    };
    let r2 = if left {
        spec_rot_minus(r1)
    } else {
        r1
    };
    let d2 = if left {
        spec_dir_step(d1, -1)
    } else {
        d1
    };
    (r2, d2)
}

/// The velocity after one physics step: thrust along the heading minus
/// quadratic drag.
pub open spec fn spec_vel_step(vel: Vec2, d: Vec2, acc: int) -> Vec2 {
    let sp = sqrt_floor(vel.x * vel.x + vel.y * vel.y);
    let dc = spec_fx_mul(DRAG as int, sp);
    Vec2 {
        x: spec_fx_add(
            vel.x as int,
            spec_fx_sub(spec_fx_mul(acc, d.x as int), spec_fx_mul(dc, vel.x as int)),
        ) as i64,
        y: spec_fx_add(
            vel.y as int,
            spec_fx_sub(spec_fx_mul(acc, d.y as int), spec_fx_mul(dc, vel.y as int)),
        ) as i64,
    }
}

/// Whether action flag `i` is on this tick: an AI agent compares its
/// output against the activation's decoding threshold once it has sensed
/// an asteroid; a human agent takes the manual flags.
pub open spec fn key_on(p: Player, outs: Seq<i64>, manual: Seq<bool>, i: int) -> bool {
    (p.asteroid is Some && p.brain is Ai && outs[i] > spec_threshold(brain_nn(p.brain).activ_func))
        || (p.brain is Human && manual[i])
}

/// The five-entry sensor vector derived from the nearest asteroid:
/// normalized distance, relative bearing, relative velocity on both axes
/// (scaled), and normalized heading angle.
///
/// The bearing entry is a deliberate fixed-point encoding of the signed
/// bearing angle: the bearing's sine (cross product over distance) while
/// the asteroid is ahead, reflected past one while it is behind
/// (`2 - sine` on the left, `-2 - sine` on the right). The map is monotone
/// in the angle, zero dead ahead, two in magnitude dead behind, and keeps
/// front and back apart — an exact substitute for the angle itself, which
/// fixed-point arithmetic cannot produce.
pub open spec fn spec_sense(p: Player, ast: Asteroid, dims: (i64, i64)) -> Seq<int> {
    let relx = spec_fx_sub(ast.pos.x as int, p.pos.x as int);
    let rely = spec_fx_sub(ast.pos.y as int, p.pos.y as int);
    let dist = sqrt_floor(relx * relx + rely * rely);
    let cross = spec_fx_sub(
        spec_fx_mul(p.dir.x as int, rely),
        spec_fx_mul(p.dir.y as int, relx),
    );
    let dot = spec_fx_add(
        spec_fx_mul(p.dir.x as int, relx),
        spec_fx_mul(p.dir.y as int, rely),
    );
    let sine = if dist > 0 {
        spec_fx_div(cross, dist)
    } else {
        0
    };
    seq![
        spec_fx_div(dist, dims.1 as int),
        if dot >= 0 {
            sine
        } else if sine >= 0 {
            2 * FX_ONE - sine
        } else {
            -2 * FX_ONE - sine
        },
        spec_fx_mul(spec_fx_sub(ast.vel.x as int, p.vel.x as int), 300_000),
        spec_fx_mul(spec_fx_sub(ast.vel.y as int, p.vel.y as int), 300_000),
        spec_fx_div(p.rot as int, TAU_FX as int),
    ]
}

/// Whether a bullet touches an asteroid.
pub open spec fn bullet_hits(b: Bullet, a: Asteroid) -> bool {
    spec_dist_sq(b.pos, a.pos) <= a.radius * a.radius
}

/// A bullet after one drift step.
pub open spec fn spec_moved_bullet(b: Bullet) -> Bullet {
    Bullet {
        pos: Vec2 {
            x: spec_fx_add(b.pos.x as int, b.vel.x as int) as i64,
            y: spec_fx_add(b.pos.y as int, b.vel.y as int) as i64,
        },
        vel: b.vel,
        alive: b.alive,
    }
}

/// Whether a drifted bullet stays: alive and inside the inner half-field.
pub open spec fn spec_bullet_kept(b: Bullet, dims: (i64, i64)) -> bool {
    b.alive && 2 * abs_int(b.pos.x as int) < dims.0 && 2 * abs_int(b.pos.y as int) < dims.1
}

/// One drift-and-cull step of a whole bullet list, in order.
pub open spec fn spec_advance_bullets(bs: Seq<Bullet>, dims: (i64, i64)) -> Seq<Bullet>
    decreases bs.len(),
{
    if bs.len() == 0 {
        Seq::empty()
    } else {
        let rest = spec_advance_bullets(bs.drop_last(), dims);
        let m = spec_moved_bullet(bs.last());
        if spec_bullet_kept(m, dims) {
            rest.push(m)
        } else {
            rest
        }
    }
}

/// The bullet an agent fires: spawned ahead of the ship along the heading,
/// inheriting the ship's velocity plus the bullet speed along the heading.
pub open spec fn spec_spawn_bullet(pos: Vec2, dir: Vec2, vel: Vec2) -> Bullet {
    Bullet {
        pos: Vec2 {
            x: spec_fx_add(pos.x as int, spec_fx_mul(dir.x as int, 20 * FX_ONE)) as i64,
            y: spec_fx_add(pos.y as int, spec_fx_mul(dir.y as int, 20 * FX_ONE)) as i64,
        },
        vel: Vec2 {
            x: spec_fx_add(spec_fx_mul(dir.x as int, BULLET_SPEED as int), vel.x as int) as i64,
            y: spec_fx_add(spec_fx_mul(dir.y as int, BULLET_SPEED as int), vel.y as int) as i64,
        },
        alive: true,
    }
}

/// The deterministic relation one agent tick establishes between the old
/// and new state, over the fields that in-world collision resolution never
/// writes: control source, counters, sensing, inference, heading and
/// kinematics. `World::update` re-exports it for the whole tick.
pub open spec fn player_step_rel(p0: Player, p1: Player, manual: Seq<bool>, dims: (i64, i64)) -> bool {
    &&& p1.brain == p0.brain
    &&& p1.lifespan == inc_cap(p0.lifespan as int)
    &&& (p0.asteroid matches Some(ast) ==> seq_int(p1.inputs@) == spec_sense(p0, ast, dims))
    &&& (p0.asteroid is None ==> p1.inputs == p0.inputs)
    &&& (p0.brain matches Brain::Ai(nn) ==> (p0.asteroid is Some ==> seq_int(p1.outputs@)
        == nn.spec_feed_forward(p1.inputs@)))
    &&& ((p0.asteroid is None || p0.brain is Human) ==> p1.outputs@ =~= seq![
        0i64,
        0i64,
        0i64,
        0i64,
    ])
    &&& {
        let k0 = key_on(p0, p1.outputs@, manual, 0);
        let k1 = key_on(p0, p1.outputs@, manual, 1);
        let k2 = key_on(p0, p1.outputs@, manual, 2);
        let k3 = key_on(p0, p1.outputs@, manual, 3);
        let turned = spec_turned(p0.rot as int, p0.dir, k0, k1);
        let fired = k3 && inc_cap(p0.last_shot as int) > SHOT_INTERVAL;
        &&& p1.rot == turned.0
        &&& p1.dir == turned.1
        &&& p1.acc == (if k2 {
            ACCEL as int
        } else {
            0
        })
        &&& (fired ==> p1.shots == inc_cap(p0.shots as int) && p1.last_shot == 0)
        &&& (!fired ==> p1.shots == p0.shots && p1.last_shot == inc_cap(p0.last_shot as int))
        &&& p1.vel == spec_vel_step(
            p0.vel,
            turned.1,
            if k2 {
                ACCEL as int
            } else {
                0
            },
        )
        &&& p1.pos.x == crate::asteroids::spec_wrap_coord(
            spec_fx_add(p0.pos.x as int, p1.vel.x as int),
            spec_fx_add(spec_fx_mul(dims.0 as int, 500_000), 10 * FX_ONE),
        )
        &&& p1.pos.y == crate::asteroids::spec_wrap_coord(
            spec_fx_add(p0.pos.y as int, p1.vel.y as int),
            spec_fx_add(spec_fx_mul(dims.1 as int, 500_000), 10 * FX_ONE),
        )
    }
}

/// Apply the right and left turn flags to the heading angle and vector.
fn turn_step(rot: i64, dir: Vec2, right: bool, left: bool) -> (r: (i64, Vec2))
    requires
        0 <= rot < TAU_FX,
        vec2_band(dir),
    ensures
        r.0 == spec_turned(rot as int, dir, right, left).0,
        r.1 == spec_turned(rot as int, dir, right, left).1,
        0 <= r.0 < TAU_FX,
        vec2_band(r.1),
{
    let mut nr = rot;
    let mut nd = dir;
    if right {
        nr = if nr + ROT_STEP >= TAU_FX {
            nr + ROT_STEP - TAU_FX
        } else {
            nr + ROT_STEP
        };
        nd = Vec2 {
            x: fx_sub(fx_mul(nd.x, COS_STEP), fx_mul(nd.y, SIN_STEP)),
            y: fx_add(fx_mul(nd.x, SIN_STEP), fx_mul(nd.y, COS_STEP)),
        };
    }
    if left {
        nr = if nr - ROT_STEP < 0 {
            nr - ROT_STEP + TAU_FX
        } else {
            nr - ROT_STEP
        };
        nd = Vec2 {
            x: fx_sub(fx_mul(nd.x, COS_STEP), fx_mul(nd.y, -SIN_STEP)),
            y: fx_add(fx_mul(nd.x, -SIN_STEP), fx_mul(nd.y, COS_STEP)),
        };
    }
    (nr, nd)
}

/// One physics step of the velocity: thrust along the heading, then
/// quadratic drag against the current speed.
fn vel_step(vel: Vec2, dir: Vec2, acc: i64) -> (r: Vec2)
    requires
        vec2_band(vel),
        vec2_band(dir),
        -FX_LIM <= acc <= FX_LIM,
    ensures
        r == spec_vel_step(vel, dir, acc as int),
        vec2_band(r),
{
    let sp = vel.norm();
    let dc = fx_mul(DRAG, sp);
    let delta = Vec2 {
        x: fx_sub(fx_mul(acc, dir.x), fx_mul(dc, vel.x)),
        y: fx_sub(fx_mul(acc, dir.y), fx_mul(dc, vel.y)),
    };
    vel.plus(delta)
}

/// Drift and wrap the ship's position at a ten-unit border margin.
fn pos_step(pos: Vec2, vel: Vec2, dims: (i64, i64)) -> (r: Vec2)
    requires
        vec2_band(pos),
        vec2_band(vel),
        0 < dims.0 <= DIM_LIM,
        0 < dims.1 <= DIM_LIM,
    ensures
        r.x == crate::asteroids::spec_wrap_coord(
            spec_fx_add(pos.x as int, vel.x as int),
            spec_fx_add(spec_fx_mul(dims.0 as int, 500_000), 10 * FX_ONE),
        ),
        r.y == crate::asteroids::spec_wrap_coord(
            spec_fx_add(pos.y as int, vel.y as int),
            spec_fx_add(spec_fx_mul(dims.1 as int, 500_000), 10 * FX_ONE),
        ),
        vec2_band(r),
{
    let q = pos.plus(vel);
    let lim_x = fx_add(fx_mul(dims.0, 500_000), 10 * FX_ONE);
    let lim_y = fx_add(fx_mul(dims.1, 500_000), 10 * FX_ONE);
    Vec2 {
        x: if q.x > lim_x || q.x < -lim_x {
            -q.x
        } else {
            q.x
        },
        y: if q.y > lim_y || q.y < -lim_y {
            -q.y
        } else {
            q.y
        },
    }
}

/// Move every live bullet by its velocity and drop those that left the
/// inner field.
fn advance_bullets(bullets: &mut Vec<Bullet>, dims: (i64, i64))
    requires
        forall|t: int|
            0 <= t < old(bullets)@.len() ==> vec2_band((#[trigger] old(bullets)@[t]).pos)
                && vec2_band(old(bullets)@[t].vel),
        0 < dims.0 <= DIM_LIM,
        0 < dims.1 <= DIM_LIM,
    ensures
        final(bullets)@ == spec_advance_bullets(old(bullets)@, dims),
        final(bullets)@.len() <= old(bullets)@.len(),
        forall|t: int|
            0 <= t < final(bullets)@.len() ==> vec2_band((#[trigger] final(bullets)@[t]).pos)
                && vec2_band(final(bullets)@[t].vel),
{
    let n = bullets.len();
    let mut moved: Vec<Bullet> = Vec::new();
    let mut i: usize = 0;
    proof {
        assert(bullets@.take(0) =~= Seq::<Bullet>::empty());
    }
    while i < n
        invariant
            i <= n,
            n == bullets@.len(),
            *bullets == *old(bullets),
            forall|t: int|
                0 <= t < bullets@.len() ==> vec2_band((#[trigger] bullets@[t]).pos) && vec2_band(
                    bullets@[t].vel,
                ),
            moved@.len() <= i,
            moved@ == spec_advance_bullets(bullets@.take(i as int), dims),
            forall|t: int|
                0 <= t < moved@.len() ==> vec2_band((#[trigger] moved@[t]).pos) && vec2_band(
                    moved@[t].vel,
                ),
        decreases n - i,
    {
        let b = bullets[i];
        let np = b.pos.plus(b.vel);
        let ax = if np.x < 0 {
            -np.x
        } else {
            np.x
        };
        let ay = if np.y < 0 {
            -np.y
        } else {
            np.y
        };
        proof {
            assert(bullets@.take(i as int + 1).drop_last() =~= bullets@.take(i as int));
            assert(bullets@.take(i as int + 1).last() == b);
            assert(spec_moved_bullet(b).pos == np);
        }
        if b.alive && 2 * ax < dims.0 && 2 * ay < dims.1 {
            moved.push(Bullet { pos: np, vel: b.vel, alive: true });
            proof {
                assert(Bullet { pos: np, vel: b.vel, alive: true } == spec_moved_bullet(b));
            }
        }
        i = i + 1;
    }
    proof {
        assert(bullets@.take(n as int) =~= bullets@);
    }
    *bullets = moved;
}

/// Decode a network's output vector into independent boolean action flags:
/// each output is compared against the activation's fixed threshold.
pub fn decode_actions(outputs: &Vec<i64>, activ: ActivationFunc) -> (r: Vec<bool>)
    ensures
        r@.len() == outputs@.len(),
        forall|i: int|
            0 <= i < r@.len() ==> #[trigger] r@[i] == (outputs@[i] > spec_threshold(activ)),
{
    let th = threshold(activ);
    let mut r: Vec<bool> = Vec::new();
    let n = outputs.len();
    let mut i: usize = 0;
    while i < n
        invariant
            i <= n,
            n == outputs@.len(),
            th == spec_threshold(activ),
            r@.len() == i,
            forall|t: int|
                0 <= t < i ==> #[trigger] r@[t] == (outputs@[t] > spec_threshold(activ)),
        decreases n - i,
    {
        r.push(outputs[i] > th);
        i = i + 1;
    }
    r
}

/// The network of an AI brain.
pub open spec fn brain_nn(b: Brain) -> NN
    recommends
        b is Ai,
{
    b->Ai_0
}

impl Player {
    /// Structural invariant: banded kinematic state, a heading angle within
    /// one turn, four outputs, well-formed network with the agent's fixed
    /// sensor and action widths, and capped counters.
    pub open spec fn wf(self) -> bool {
        &&& vec2_band(self.pos)
        &&& vec2_band(self.vel)
        &&& vec2_band(self.dir)
        &&& -FX_LIM <= self.acc <= FX_LIM
        &&& 0 <= self.rot < TAU_FX
        &&& forall|i: int|
            0 <= i < self.bullets@.len() ==> vec2_band((#[trigger] self.bullets@[i]).pos)
                && vec2_band(self.bullets@[i].vel)
        &&& self.asteroid matches Some(a) ==> a.wf()
        &&& self.outputs@.len() == 4
        &&& self.brain matches Brain::Ai(nn) ==> nn.wf() && nn.input_width() == 5
            && nn.output_width() == 4
        &&& self.lifespan <= COUNTER_LIM
        &&& self.shots <= COUNTER_LIM
        &&& self.last_shot <= COUNTER_LIM
    }

    /// Build an agent. With a configuration, the agent owns a freshly
    /// initialized network over the topology `[5, non-zero hidden widths,
    /// 4]`; without one, it is human-controlled.
    pub fn new(cfg: Option<NetConfig>, rng: &mut RandomSource) -> (r: Player)
        requires
            cfg matches Some(c) ==> c.hlayers@.len() <= MAX_LAYERS - 2 && 0 <= c.mut_rate
                <= FX_ONE && forall|i: int|
                0 <= i < c.hlayers@.len() ==> #[trigger] c.hlayers@[i] < MAX_WIDTH,
        ensures
            r.wf(),
            r.alive,
            r.lifespan == 0,
            r.shots == 0,
            r.last_shot == 0,
            r.pos == (Vec2 { x: 0, y: 0 }),
            r.vel == (Vec2 { x: 0, y: 0 }),
            r.dir == (Vec2 { x: 0i64, y: (-FX_ONE) as i64 }),
            r.rot == ROT_START,
            r.asteroid is None,
            r.outputs@ =~= seq![0i64, 0i64, 0i64, 0i64],
            r.bullets@.len() == 0,
            is_ai(r.brain) <==> cfg is Some,
            cfg matches Some(c) ==> brain_nn(r.brain).config@ == spec_aug_config(
                spec_full_config(c.hlayers@),
            ) && brain_nn(r.brain).activ_func == c.activ && brain_nn(r.brain).mut_rate
                == c.mut_rate,
    {
        let brain = match cfg {
            None => Brain::Human,
            Some(c) => {
                let mut full: Vec<usize> = Vec::new();
                full.push(5);
                let n = c.hlayers.len();
                let mut i: usize = 0;
                proof {
                    assert(c.hlayers@.skip(0) =~= c.hlayers@);
                    assert(seq![5usize] + nonzeros(c.hlayers@) =~= full@ + nonzeros(
                        c.hlayers@.skip(0),
                    ));
                }
                while i < n
                    invariant
                        i <= n,
                        n == c.hlayers@.len(),
                        n <= MAX_LAYERS - 2,
                        forall|t: int| 0 <= t < n ==> #[trigger] c.hlayers@[t] < MAX_WIDTH,
                        full@.len() <= 1 + i,
                        1 <= full@.len(),
                        forall|t: int| 0 <= t < full@.len() ==> 1 <= #[trigger] full@[t] < MAX_WIDTH,
                        seq![5usize] + nonzeros(c.hlayers@) =~= full@ + nonzeros(
                            c.hlayers@.skip(i as int),
                        ),
                    decreases n - i,
                {
                    let h = c.hlayers[i];
                    proof {
                        assert(c.hlayers@.skip(i as int)[0] == c.hlayers@[i as int]);
                        assert(c.hlayers@.skip(i as int).drop_first() =~= c.hlayers@.skip(
                            i as int + 1,
                        ));
                    }
                    if h != 0 {
                        let ghost prev = full@;
                        full.push(h);
                        proof {
                            assert(full@ + nonzeros(c.hlayers@.skip(i as int + 1)) =~= prev + (seq![
                                h,
                            ] + nonzeros(c.hlayers@.skip(i as int + 1))));
                        }
                    }
                    i = i + 1;
                }
                proof {
                    assert(nonzeros(c.hlayers@.skip(n as int)) =~= Seq::<usize>::empty());
                    assert(full@ =~= seq![5usize] + nonzeros(c.hlayers@));
                }
                full.push(4);
                proof {
                    assert(full@ =~= spec_full_config(c.hlayers@));
                }
                let nn = NN::new(&full, c.mut_rate, c.activ, rng);
                proof {
                    assert(nn.config@ =~= spec_aug_config(full@));
                    assert(full@[0] == 5);
                    assert(full@[full@.len() - 1] == 4);
                    assert(nn.config@[0] == 6);
                    assert(nn.config@[nn.config@.len() - 1] == 4);
                }
                Brain::Ai(nn)
            },
        };
        let mut outputs: Vec<i64> = Vec::new();
        outputs.push(0);
        outputs.push(0);
        outputs.push(0);
        outputs.push(0);
        Player {
            pos: Vec2 { x: 0, y: 0 },
            vel: Vec2 { x: 0, y: 0 },
            acc: 0,
            dir: Vec2 { x: 0, y: -FX_ONE },
            rot: ROT_START,
            bullets: Vec::new(),
            asteroid: None,
            inputs: Vec::new(),
            outputs,
            last_shot: 0,
            brain,
            alive: true,
            lifespan: 0,
            shots: 0,
        }
    }

    /// Whether this agent is driven by a network.
    pub fn is_ai(&self) -> (r: bool)
        ensures
            r == is_ai(self.brain),
    {
        match &self.brain {
            Brain::Ai(_) => true,
            Brain::Human => false,
        }
    }

    /// Derive the sensor vector from the given asteroid.
    pub fn sense(&self, ast: &Asteroid, dims: (i64, i64)) -> (r: Vec<i64>)
        requires
            self.wf(),
            ast.wf(),
            0 < dims.0 <= DIM_LIM,
            0 < dims.1 <= DIM_LIM,
        ensures
            r@.len() == 5,
            seq_int(r@) == spec_sense(*self, *ast, dims),
    {
        let rel = ast.pos.minus(self.pos);
        let dist = rel.norm();
        let cross = fx_sub(fx_mul(self.dir.x, rel.y), fx_mul(self.dir.y, rel.x));
        let dot = fx_add(fx_mul(self.dir.x, rel.x), fx_mul(self.dir.y, rel.y));
        let sine = if dist > 0 {
            fx_div(cross, dist)
        } else {
            0
        };
        let bearing = if dot >= 0 {
            sine
        } else if sine >= 0 {
            2 * FX_ONE - sine
        } else {
            -2 * FX_ONE - sine
        };
        let mut r: Vec<i64> = Vec::new();
        r.push(fx_div(dist, dims.1));
        r.push(bearing);
        r.push(fx_mul(fx_sub(ast.vel.x, self.vel.x), 300_000));
        r.push(fx_mul(fx_sub(ast.vel.y, self.vel.y), 300_000));
        r.push(fx_div(self.rot, TAU_FX));
        proof {
            assert(seq_int(r@) =~= spec_sense(*self, *ast, dims));
        }
        r
    }

    /// Track the nearest asteroid, then check whether it ends this agent:
    /// a hull collision, or (for an AI agent) an exhausted lifespan.
    pub fn check_player_collision(&mut self, asteroid: &Asteroid) -> (r: bool)
        requires
            old(self).wf(),
            asteroid.wf(),
        ensures
            final(self).wf(),
            r == ((spec_dist_sq(old(self).pos, asteroid.pos) <= (asteroid.radius + PLAYER_RADIUS)
                * (asteroid.radius + PLAYER_RADIUS)) || (old(self).lifespan > LIFESPAN_CAP
                && is_ai(old(self).brain))),
            *final(self) == (Player {
                asteroid: final(self).asteroid,
                alive: final(self).alive,
                ..*old(self)
            }),
            final(self).alive == (old(self).alive && !r),
            old(self).asteroid is None ==> final(self).asteroid == Some(*asteroid),
            old(self).asteroid matches Some(prev) ==> final(self).asteroid == (if spec_dist_sq(
                asteroid.pos,
                old(self).pos,
            ) < spec_dist_sq(prev.pos, old(self).pos) {
                Some(*asteroid)
            } else {
                Some(prev)
            }),
    {
        let replace = match &self.asteroid {
            None => true,
            Some(prev) => asteroid.pos.dist_sq(self.pos) < prev.pos.dist_sq(self.pos),
        };
        if replace {
            self.asteroid = Some(*asteroid);
        }
        let hit = asteroid.check_collision(self.pos, PLAYER_RADIUS);
        let worn = self.lifespan > LIFESPAN_CAP && self.is_ai();
        let r = hit || worn;
        if r {
            self.alive = false;
        }
        r
    }

    /// Let every bullet try the asteroid; the first hit kills the asteroid
    /// and the bullet and clears the nearest-asteroid memory.
    pub fn check_bullet_collisions(&mut self, asteroid: &mut Asteroid) -> (r: bool)
        requires
            old(self).wf(),
            old(asteroid).wf(),
        ensures
            final(self).wf(),
            final(asteroid).wf(),
            r == exists|i: int|
                0 <= i < old(self).bullets@.len() && bullet_hits(
                    #[trigger] old(self).bullets@[i],
                    *old(asteroid),
                ),
            !r ==> *final(self) == *old(self) && *final(asteroid) == *old(asteroid),
            r ==> *final(asteroid) == (Asteroid { alive: false, ..*old(asteroid) }),
            r ==> *final(self) == (Player {
                asteroid: None,
                bullets: final(self).bullets,
                ..*old(self)
            }),
            r ==> final(self).bullets@.len() == old(self).bullets@.len(),
            r ==> exists|i: int|
                0 <= i < old(self).bullets@.len() && bullet_hits(
                    #[trigger] old(self).bullets@[i],
                    *old(asteroid),
                ) && final(self).bullets@ == old(self).bullets@.update(
                    i,
                    Bullet { alive: false, ..old(self).bullets@[i] },
                ),
    {
        let n = self.bullets.len();
        let mut i: usize = 0;
        while i < n
            invariant
                i <= n,
                n == self.bullets@.len(),
                *self == *old(self),
                *asteroid == *old(asteroid),
                self.wf(),
                asteroid.wf(),
                forall|t: int|
                    0 <= t < i ==> !bullet_hits(#[trigger] self.bullets@[t], *asteroid),
            decreases n - i,
        {
            let b = self.bullets[i];
            if asteroid.check_collision(b.pos, 0) {
                asteroid.alive = false;
                self.bullets.set(i, Bullet { alive: false, ..b });
                self.asteroid = None;
                return true;
            }
            i = i + 1;
        }
        false
    }

    /// One tick: sense, infer, decode actions, apply them, advance the
    /// kinematics with wrap-around, move the bullets, and forget the
    /// Sense the tracked asteroid, run inference, and decode this tick's
    /// action flags; a human agent takes the manual flags instead.
    #[verifier::rlimit(100)]
    fn control(&mut self, manual: &Vec<bool>, dims: (i64, i64)) -> (keys: (bool, bool, bool, bool))
        requires
            old(self).wf(),
            manual@.len() == 4,
            0 < dims.0 <= DIM_LIM,
            0 < dims.1 <= DIM_LIM,
        ensures
            final(self).wf(),
            *final(self) == (Player {
                inputs: final(self).inputs,
                outputs: final(self).outputs,
                ..*old(self)
            }),
            old(self).asteroid matches Some(ast) ==> seq_int(final(self).inputs@) == spec_sense(
                *old(self),
                ast,
                dims,
            ),
            old(self).asteroid is None ==> final(self).inputs == old(self).inputs,
            old(self).brain matches Brain::Ai(nn) ==> (old(self).asteroid is Some ==> seq_int(
                final(self).outputs@,
            ) == nn.spec_feed_forward(final(self).inputs@)),
            (old(self).asteroid is None || old(self).brain is Human) ==> final(self).outputs@
                =~= seq![0i64, 0i64, 0i64, 0i64],
            keys.0 == key_on(*old(self), final(self).outputs@, manual@, 0),
            keys.1 == key_on(*old(self), final(self).outputs@, manual@, 1),
            keys.2 == key_on(*old(self), final(self).outputs@, manual@, 2),
            keys.3 == key_on(*old(self), final(self).outputs@, manual@, 3),
    {
        let mut k0 = false;
        let mut k1 = false;
        let mut k2 = false;
        let mut k3 = false;
        match self.asteroid {
            Some(ast) => {
                let inp = self.sense(&ast, dims);
                self.inputs = inp;
                match &self.brain {
                    Brain::Ai(nn) => {
                        let out = match nn.feed_forward(&self.inputs) {
                            Ok(o) => o,
                            Err(_) => {
                                proof {
                                    assert(false);
                                }
                                Vec::new()
                            },
                        };
                        self.outputs = out;
                        let keys = decode_actions(&self.outputs, nn.activ_func);
                        k0 = keys[0];
                        k1 = keys[1];
                        k2 = keys[2];
                        k3 = keys[3];
                    },
                    Brain::Human => {
                        self.outputs = zeros4();
                    },
                }
            },
            None => {
                self.outputs = zeros4();
            },
        }
        match &self.brain {
            Brain::Human => {
                k0 = manual[0];
                k1 = manual[1];
                k2 = manual[2];
                k3 = manual[3];
            },
            Brain::Ai(_) => {},
        }
        (k0, k1, k2, k3)
    }

    /// tracked asteroid.
    #[verifier::rlimit(100)]
    pub fn update(&mut self, dims: (i64, i64), manual: &Vec<bool>, rng: &mut RandomSource)
        requires
            old(self).wf(),
            manual@.len() == 4,
            0 < dims.0 <= DIM_LIM,
            0 < dims.1 <= DIM_LIM,
        ensures
            final(self).wf(),
            player_step_rel(*old(self), *final(self), manual@, dims),
            final(self).alive == old(self).alive,
            final(self).asteroid is None,
            ({
                let k3 = key_on(*old(self), final(self).outputs@, manual@, 3);
                let turned = spec_turned(
                    old(self).rot as int,
                    old(self).dir,
                    key_on(*old(self), final(self).outputs@, manual@, 0),
                    key_on(*old(self), final(self).outputs@, manual@, 1),
                );
                let fired = k3 && inc_cap(old(self).last_shot as int) > SHOT_INTERVAL;
                final(self).bullets@ == spec_advance_bullets(
                    old(self).bullets@ + (if fired {
                        seq![spec_spawn_bullet(old(self).pos, turned.1, old(self).vel)]
                    } else {
                        Seq::<Bullet>::empty()
                    }),
                    dims,
                )
            }),
    {
        if self.lifespan < COUNTER_LIM {
            self.lifespan = self.lifespan + 1;
        }
        if self.last_shot < COUNTER_LIM {
            self.last_shot = self.last_shot + 1;
        }
        self.acc = 0;
        let (k0, k1, k2, k3) = self.control(manual, dims);
        proof {
            assert(k0 == key_on(*old(self), self.outputs@, manual@, 0));
            assert(k1 == key_on(*old(self), self.outputs@, manual@, 1));
            assert(k2 == key_on(*old(self), self.outputs@, manual@, 2));
            assert(k3 == key_on(*old(self), self.outputs@, manual@, 3));
        }
        self.act(k0, k1, k2, k3, dims);
    }

    /// Apply this tick's decoded action flags and advance the kinematics:
    /// turn, thrust, fire, drift with wrap-around, move the bullets, and
    /// forget the tracked asteroid.
    #[verifier::rlimit(100)]
    fn act(&mut self, k0: bool, k1: bool, k2: bool, k3: bool, dims: (i64, i64))
        requires
            old(self).wf(),
            old(self).acc == 0,
            0 < dims.0 <= DIM_LIM,
            0 < dims.1 <= DIM_LIM,
        ensures
            final(self).wf(),
            final(self).brain == old(self).brain,
            final(self).alive == old(self).alive,
            final(self).lifespan == old(self).lifespan,
            final(self).inputs == old(self).inputs,
            final(self).outputs == old(self).outputs,
            final(self).asteroid is None,
            final(self).rot == spec_turned(old(self).rot as int, old(self).dir, k0, k1).0,
            final(self).dir == spec_turned(old(self).rot as int, old(self).dir, k0, k1).1,
            final(self).acc == (if k2 {
                ACCEL as int
            } else {
                0
            }),
            ({
                let fired = k3 && old(self).last_shot > SHOT_INTERVAL;
                &&& (fired ==> final(self).shots == inc_cap(old(self).shots as int)
                    && final(self).last_shot == 0)
                &&& (!fired ==> final(self).shots == old(self).shots && final(self).last_shot
                    == old(self).last_shot)
                &&& final(self).bullets@ == spec_advance_bullets(
                    old(self).bullets@ + (if fired {
                        seq![
                            spec_spawn_bullet(
                                old(self).pos,
                                spec_turned(old(self).rot as int, old(self).dir, k0, k1).1,
                                old(self).vel,
                            ),
                        ]
                    } else {
                        Seq::<Bullet>::empty()
                    }),
                    dims,
                )
            }),
            final(self).vel == spec_vel_step(
                old(self).vel,
                spec_turned(old(self).rot as int, old(self).dir, k0, k1).1,
                if k2 {
                    ACCEL as int
                } else {
                    0
                },
            ),
            final(self).pos.x == crate::asteroids::spec_wrap_coord(
                spec_fx_add(old(self).pos.x as int, final(self).vel.x as int),
                spec_fx_add(spec_fx_mul(dims.0 as int, 500_000), 10 * FX_ONE),
            ),
            final(self).pos.y == crate::asteroids::spec_wrap_coord(
                spec_fx_add(old(self).pos.y as int, final(self).vel.y as int),
                spec_fx_add(spec_fx_mul(dims.1 as int, 500_000), 10 * FX_ONE),
            ),
    {
        let (nr, nd) = turn_step(self.rot, self.dir, k0, k1);
        self.rot = nr;
        self.dir = nd;
        if k2 {
            self.acc = ACCEL;
        }
        if k3 && self.last_shot > SHOT_INTERVAL {
            self.last_shot = 0;
            if self.shots < COUNTER_LIM {
                self.shots = self.shots + 1;
            }
            let bp = self.pos.plus(self.dir.scale(20 * FX_ONE));
            let bv = self.dir.scale(BULLET_SPEED).plus(self.vel);
            let shell = Bullet { pos: bp, vel: bv, alive: true };
            proof {
                assert(shell == spec_spawn_bullet(old(self).pos, self.dir, old(self).vel));
            }
            self.bullets.push(shell);
            proof {
                assert(self.bullets@ =~= old(self).bullets@ + seq![
                    spec_spawn_bullet(old(self).pos, self.dir, old(self).vel),
                ]);
            }
        } else {
            proof {
                assert(self.bullets@ =~= old(self).bullets@ + Seq::<Bullet>::empty());
            }
        }
        self.vel = vel_step(self.vel, self.dir, self.acc);
        self.pos = pos_step(self.pos, self.vel, dims);
        advance_bullets(&mut self.bullets, dims);
        self.asteroid = None;
    }
}

/// A fresh all-zero output vector.
fn zeros4() -> (r: Vec<i64>)
    ensures
        r@ =~= seq![0i64, 0i64, 0i64, 0i64],
{
    let mut r: Vec<i64> = Vec::new();
    r.push(0);
    r.push(0);
    r.push(0);
    r.push(0);
    r
}

} // verus!
