//! The environment around one agent: an asteroid field, the agent's score,
//! and its frozen fitness.
//!
//! Fitness rewards shooting accuracy quadratically and survival linearly:
//! `(hits / max(shots, 1))^2 * lifespan`. Both counters start at zero and
//! the denominator floors at one — a documented choice.

use vstd::prelude::*;

use crate::asteroids::{Asteroid, AsteroidSize, DIM_LIM, radius_for, spec_drifted};
use crate::fx::{FX_LIM, FX_ONE, Vec2, fx_clamp, spec_dist_sq, spec_fx_add, spec_fx_mul, spec_fx_sub};
use crate::nn::{MAX_LAYERS, MAX_WIDTH, NN};
use crate::player::{
    Brain, Bullet, COUNTER_LIM, LIFESPAN_CAP, NetConfig, PLAYER_RADIUS, Player, brain_nn,
    bullet_hits, is_ai, player_step_rel, spec_aug_config, spec_full_config,
};
use crate::rng::RandomSource;

verus! {

/// The exact fitness formula, saturated into the fixed-point band:
/// `(hits / max(shots, 1))^2 * lifespan` in fixed point, computed as a
/// single exact division.
pub open spec fn spec_fitness(hits: int, shots: int, lifespan: int) -> int {
    let s = if shots >= 1 {
        shots
    } else {
        1
    };
    fx_clamp((hits * hits * lifespan * (FX_ONE as int)) / (s * s))
}

/// Compute the fitness of a cohort member from its counters.
pub fn compute_fitness(hits: u32, shots: u32, lifespan: u32) -> (r: i64)
    ensures
        r == spec_fitness(hits as int, shots as int, lifespan as int),
        0 <= r <= FX_LIM,
{
    let s: u128 = if shots >= 1 {
        shots as u128
    } else {
        1
    };
    let h: u128 = hits as u128;
    let l: u128 = lifespan as u128;
    proof {
        assert(h * h <= 0xffff_ffff_ffff_ffffu128) by (nonlinear_arith)
            requires
                0 <= h < 0x1_0000_0000,
        ;
        assert(h * h * l <= 0xffff_ffff_ffff_ffff_ffff_ffffu128) by (nonlinear_arith)
            requires
                0 <= h * h <= 0xffff_ffff_ffff_ffffu128,
                0 <= l < 0x1_0000_0000,
        ;
        assert((h * h * l) * 1_000_000 <= u128::MAX) by (nonlinear_arith)
            requires
                0 <= h * h * l <= 0xffff_ffff_ffff_ffff_ffff_ffffu128,
        ;
        assert(s * s <= u128::MAX && s * s >= 1) by (nonlinear_arith)
            requires
                1 <= s < 0x1_0000_0000,
        ;
    }
    let num: u128 = h * h * l * 1_000_000;
    let den: u128 = s * s;
    let q: u128 = num / den;
    if q > FX_LIM as u128 {
        FX_LIM
    } else {
        q as i64
    }
}

/// Whether the agent at position `p_pos` touches the asteroid that
/// drifted from `a` this tick, within the hull radius.
pub open spec fn spec_hull_hit(p_pos: Vec2, a: Asteroid, dims: (i64, i64)) -> bool {
    spec_dist_sq(p_pos, spec_drifted(a, dims).pos) <= (a.radius + PLAYER_RADIUS) * (a.radius
        + PLAYER_RADIUS)
}

/// Whether any bullet strikes the asteroid that drifted from `a` this tick.
pub open spec fn spec_struck(bullets: Seq<Bullet>, a: Asteroid, dims: (i64, i64)) -> bool {
    exists|j: int| 0 <= j < bullets.len() && bullet_hits(#[trigger] bullets[j], spec_drifted(a, dims))
}

/// How many of the first `t` asteroids are struck by a bullet this tick.
pub open spec fn spec_strike_count(
    bullets: Seq<Bullet>,
    asts: Seq<Asteroid>,
    dims: (i64, i64),
    t: int,
) -> int
    decreases t,
{
    if t <= 0 {
        0
    } else {
        spec_strike_count(bullets, asts, dims, t - 1) + if spec_struck(bullets, asts[t - 1], dims) {
            1int
        } else {
            0
        }
    }
}

/// A counter raised by `c`, saturating at the hard cap.
pub open spec fn cap_add(s: int, c: int) -> int {
    if s + c <= COUNTER_LIM {
        s + c
    } else {
        COUNTER_LIM as int
    }
}

/// The deterministic relation one world tick establishes, the tracked-flag
/// field aside: the agent's step relation, the exact termination decision
/// (a hull collision, or the lifespan cap alone for an AI agent), the
/// exact score increment, the field's evolution — drifted unstruck
/// survivors, then two fragments per struck Large or Medium asteroid, then
/// the periodic aimed spawn — and the fitness refreshed from the counters.
pub open spec fn world_step_rel(w0: World, w1: World, manual: Seq<bool>, dims: (i64, i64)) -> bool {
    &&& player_step_rel(w0.player, w1.player, manual, dims)
    &&& w1.over == ((exists|t: int|
        0 <= t < w0.asteroids@.len() && spec_hull_hit(
            w1.player.pos,
            #[trigger] w0.asteroids@[t],
            dims,
        )) || (w1.player.lifespan > LIFESPAN_CAP && is_ai(w0.player.brain)))
    &&& w1.player.alive == (w0.player.alive && !w1.over)
    &&& w1.score == cap_add(
        w0.score as int,
        spec_strike_count(w1.player.bullets@, w0.asteroids@, dims, w0.asteroids@.len() as int),
    )
    &&& w1.score >= w0.score
    &&& forall|t: int| 0 <= t < w1.asteroids@.len() ==> (#[trigger] w1.asteroids@[t]).alive
    &&& exists|frags: Seq<Asteroid>, tail: Seq<Asteroid>|
        #![trigger spec_survivors(w0.asteroids@, w1.player.bullets@, dims) + frags + tail]
        {
            &&& spec_frags_of(w1.player.bullets@, w0.asteroids@, dims, frags)
            &&& (if w1.player.lifespan % 200 == 0 {
                tail.len() == 1 && spec_aimed_spawn(tail[0], w1.player.pos, dims)
            } else {
                tail.len() == 0
            })
            &&& w1.asteroids@ == spec_survivors(w0.asteroids@, w1.player.bullets@, dims) + frags
                + tail
        }
    &&& w1.fitness == spec_fitness(
        w1.score as int,
        w1.player.shots as int,
        w1.player.lifespan as int,
    )
}

/// The asteroids that survive the tick, in order: each live original that
/// no bullet strikes, at its drifted position.
pub open spec fn spec_survivors(asts: Seq<Asteroid>, bullets: Seq<Bullet>, dims: (i64, i64)) -> Seq<
    Asteroid,
>
    decreases asts.len(),
{
    if asts.len() == 0 {
        Seq::empty()
    } else {
        let rest = spec_survivors(asts.drop_last(), bullets, dims);
        let a = asts.last();
        if a.alive && !spec_struck(bullets, a, dims) {
            rest.push(spec_drifted(a, dims))
        } else {
            rest
        }
    }
}

/// What the two fragments of a struck asteroid are: the next size down, at
/// the struck asteroid's drifted position, with velocities `v + r` and
/// `v - r` for one bounded random perturbation `r`.
pub open spec fn spec_frag_pair(a: Asteroid, f1: Asteroid, f2: Asteroid, dims: (i64, i64)) -> bool {
    let d = spec_drifted(a, dims);
    let sub = if a.size == AsteroidSize::Large {
        AsteroidSize::Medium
    } else {
        AsteroidSize::Small
    };
    let bound: int = if a.size == AsteroidSize::Large {
        800_000
    } else {
        600_000
    };
    exists|rx: int, ry: int|
        #![trigger spec_fx_add(d.vel.x as int, rx), spec_fx_add(d.vel.y as int, ry)]
        {
            &&& -bound <= rx < bound
            &&& -bound <= ry < bound
            &&& f1.pos == d.pos
            &&& f2.pos == d.pos
            &&& f1.vel.x == spec_fx_add(d.vel.x as int, rx)
            &&& f1.vel.y == spec_fx_add(d.vel.y as int, ry)
            &&& f2.vel.x == spec_fx_sub(d.vel.x as int, rx)
            &&& f2.vel.y == spec_fx_sub(d.vel.y as int, ry)
            &&& f1.size == sub
            &&& f2.size == sub
            &&& f1.alive
            &&& f2.alive
            &&& radius_for(sub, f1.radius as int)
            &&& radius_for(sub, f2.radius as int)
        }
}

/// The fragment list a tick produces: two fragments, in order, for each
/// struck Large or Medium asteroid, and none for a struck Small one.
pub open spec fn spec_frags_of(
    bullets: Seq<Bullet>,
    asts: Seq<Asteroid>,
    dims: (i64, i64),
    frags: Seq<Asteroid>,
) -> bool
    decreases asts.len(),
{
    if asts.len() == 0 {
        frags.len() == 0
    } else {
        let a = asts.last();
        if spec_struck(bullets, a, dims) && a.size != AsteroidSize::Small {
            &&& frags.len() >= 2
            &&& spec_frags_of(bullets, asts.drop_last(), dims, frags.take(frags.len() - 2))
            &&& spec_frag_pair(a, frags[frags.len() - 2], frags[frags.len() - 1], dims)
        } else {
            spec_frags_of(bullets, asts.drop_last(), dims, frags)
        }
    }
}

/// The periodic reinforcement: a fresh Large asteroid whose velocity is
/// aimed at the target with speed one and a half.
pub open spec fn spec_aimed_spawn(a: Asteroid, target: Vec2, dims: (i64, i64)) -> bool {
    &&& a.alive
    &&& a.size == AsteroidSize::Large
    &&& radius_for(AsteroidSize::Large, a.radius as int)
    &&& a.vel.x == spec_fx_mul(
        spec_fx_add(target.x as int, -(a.pos.x as int)),
        spec_fx_mul(2_000, 1_500_000),
    )
    &&& a.vel.y == spec_fx_mul(
        spec_fx_add(target.y as int, -(a.pos.y as int)),
        spec_fx_mul(2_000, 1_500_000),
    )
}

/// Striking depends only on bullet positions, not on their liveness flags.
proof fn lemma_struck_same_pos(b1: Seq<Bullet>, b2: Seq<Bullet>, a: Asteroid, dims: (i64, i64))
    requires
        b1.len() == b2.len(),
        forall|j: int| 0 <= j < b1.len() ==> (#[trigger] b1[j]).pos == b2[j].pos,
    ensures
        spec_struck(b1, a, dims) == spec_struck(b2, a, dims),
{
    if spec_struck(b1, a, dims) {
        let j = choose|j: int|
            0 <= j < b1.len() && bullet_hits(#[trigger] b1[j], spec_drifted(a, dims));
        assert(bullet_hits(b2[j], spec_drifted(a, dims)));
    }
    if spec_struck(b2, a, dims) {
        let j = choose|j: int|
            0 <= j < b2.len() && bullet_hits(#[trigger] b2[j], spec_drifted(a, dims));
        assert(bullet_hits(b1[j], spec_drifted(a, dims)));
    }
}

proof fn lemma_strike_count_bounds(bullets: Seq<Bullet>, asts: Seq<Asteroid>, dims: (i64, i64), t: int)
    requires
        t >= 0,
    ensures
        0 <= spec_strike_count(bullets, asts, dims, t) <= t,
    decreases t,
{
    if t > 0 {
        lemma_strike_count_bounds(bullets, asts, dims, t - 1);
    }
}

proof fn lemma_strike_count_same_pos(
    b1: Seq<Bullet>,
    b2: Seq<Bullet>,
    asts: Seq<Asteroid>,
    dims: (i64, i64),
    t: int,
)
    requires
        t >= 0,
        b1.len() == b2.len(),
        forall|j: int| 0 <= j < b1.len() ==> (#[trigger] b1[j]).pos == b2[j].pos,
    ensures
        spec_strike_count(b1, asts, dims, t) == spec_strike_count(b2, asts, dims, t),
    decreases t,
{
    if t > 0 {
        lemma_strike_count_same_pos(b1, b2, asts, dims, t - 1);
        lemma_struck_same_pos(b1, b2, asts[t - 1], dims);
    }
}

proof fn lemma_survivors_same_pos(
    b1: Seq<Bullet>,
    b2: Seq<Bullet>,
    asts: Seq<Asteroid>,
    dims: (i64, i64),
)
    requires
        b1.len() == b2.len(),
        forall|j: int| 0 <= j < b1.len() ==> (#[trigger] b1[j]).pos == b2[j].pos,
    ensures
        spec_survivors(asts, b1, dims) == spec_survivors(asts, b2, dims),
    decreases asts.len(),
{
    if asts.len() > 0 {
        lemma_survivors_same_pos(b1, b2, asts.drop_last(), dims);
        lemma_struck_same_pos(b1, b2, asts.last(), dims);
    }
}

proof fn lemma_frags_same_pos(
    b1: Seq<Bullet>,
    b2: Seq<Bullet>,
    asts: Seq<Asteroid>,
    dims: (i64, i64),
    frags: Seq<Asteroid>,
)
    requires
        b1.len() == b2.len(),
        forall|j: int| 0 <= j < b1.len() ==> (#[trigger] b1[j]).pos == b2[j].pos,
    ensures
        spec_frags_of(b1, asts, dims, frags) == spec_frags_of(b2, asts, dims, frags),
    decreases asts.len(),
{
    if asts.len() > 0 {
        lemma_struck_same_pos(b1, b2, asts.last(), dims);
        lemma_frags_same_pos(b1, b2, asts.drop_last(), dims, frags);
        if frags.len() >= 2 {
            lemma_frags_same_pos(b1, b2, asts.drop_last(), dims, frags.take(frags.len() - 2));
        }
    }
}

/// One agent's world: the agent, its asteroid field, and its outcome.
pub struct World {
    pub player: Player,
    pub asteroids: Vec<Asteroid>,
    pub score: u32,
    pub over: bool,
    pub fitness: i64,
    pub track: bool,
}

impl World {
    /// Structural invariant.
    pub open spec fn wf(self) -> bool {
        &&& self.player.wf()
        &&& forall|i: int| 0 <= i < self.asteroids@.len() ==> (#[trigger] self.asteroids@[i]).wf()
        &&& self.score <= COUNTER_LIM
        &&& 0 <= self.fitness <= FX_LIM
    }

    /// A fresh world: a new agent (AI-driven if a configuration is given)
    /// and five large asteroids, one of them aimed at the center.
    pub fn new(cfg: Option<NetConfig>, dims: (i64, i64), rng: &mut RandomSource) -> (r: World)
        requires
            cfg matches Some(c) ==> c.hlayers@.len() <= MAX_LAYERS - 2 && 0 <= c.mut_rate
                <= FX_ONE && forall|i: int|
                0 <= i < c.hlayers@.len() ==> #[trigger] c.hlayers@[i] < MAX_WIDTH,
            0 < dims.0 <= DIM_LIM,
            0 < dims.1 <= DIM_LIM,
        ensures
            r.wf(),
            r.score == 0,
            r.over == false,
            r.fitness == 0,
            r.track == false,
            r.asteroids@.len() == 5,
            forall|i: int|
                0 <= i < r.asteroids@.len() ==> (#[trigger] r.asteroids@[i]).alive
                    && r.asteroids@[i].size == AsteroidSize::Large && radius_for(
                    AsteroidSize::Large,
                    r.asteroids@[i].radius as int,
                ),
            r.player.lifespan == 0,
            r.player.shots == 0,
            is_ai(r.player.brain) <==> cfg is Some,
            cfg matches Some(c) ==> brain_nn(r.player.brain).config@ == spec_aug_config(
                spec_full_config(c.hlayers@),
            ) && brain_nn(r.player.brain).activ_func == c.activ && brain_nn(
                r.player.brain,
            ).mut_rate == c.mut_rate,
    {
        let player = Player::new(cfg, rng);
        let mut asteroids: Vec<Asteroid> = Vec::new();
        asteroids.push(
            Asteroid::new_to(Vec2 { x: 0, y: 0 }, 1_500_000, AsteroidSize::Large, dims, rng),
        );
        asteroids.push(Asteroid::new(AsteroidSize::Large, dims, rng));
        asteroids.push(Asteroid::new(AsteroidSize::Large, dims, rng));
        asteroids.push(Asteroid::new(AsteroidSize::Large, dims, rng));
        asteroids.push(Asteroid::new(AsteroidSize::Large, dims, rng));
        World { player, asteroids, score: 0, over: false, fitness: 0, track: false }
    }

    /// A world that evaluates an existing network.
    pub fn simulate(brain: NN, dims: (i64, i64), rng: &mut RandomSource) -> (r: World)
        requires
            brain.wf(),
            brain.input_width() == 5,
            brain.output_width() == 4,
            0 < dims.0 <= DIM_LIM,
            0 < dims.1 <= DIM_LIM,
        ensures
            r.wf(),
            r.score == 0,
            r.over == false,
            r.fitness == 0,
            r.track == false,
            r.asteroids@.len() == 5,
            forall|i: int|
                0 <= i < r.asteroids@.len() ==> (#[trigger] r.asteroids@[i]).alive
                    && r.asteroids@[i].size == AsteroidSize::Large && radius_for(
                    AsteroidSize::Large,
                    r.asteroids@[i].radius as int,
                ),
            r.player.lifespan == 0,
            r.player.shots == 0,
            r.player.brain == Brain::Ai(brain),
    {
        let mut w = World::new(None, dims, rng);
        w.player.brain = Brain::Ai(brain);
        w
    }

    /// Mark or unmark this world as the tracked one.
    pub fn track(&mut self, track: bool)
        requires
            old(self).wf(),
        ensures
            final(self).wf(),
            *final(self) == (World { track, ..*old(self) }),
    {
        self.track = track;
    }

    /// The network driving this world's agent.
    pub fn see_brain(&self) -> (r: &NN)
        requires
            is_ai(self.player.brain),
        ensures
            *r == brain_nn(self.player.brain),
    {
        match &self.player.brain {
            Brain::Ai(nn) => nn,
            Brain::Human => vstd::pervasive::unreached(),
        }
    }

    /// One tick: advance the agent, move every asteroid, resolve bullet
    /// hits (splitting large and medium asteroids), resolve hull collisions
    /// and lifespan exhaustion, refresh the fitness from the counters, drop
    /// dead asteroids, and periodically aim a fresh asteroid at the agent.
    #[verifier::rlimit(100)]
    pub fn update(&mut self, dims: (i64, i64), manual: &Vec<bool>, rng: &mut RandomSource)
        requires
            old(self).wf(),
            !old(self).over,
            manual@.len() == 4,
            0 < dims.0 <= DIM_LIM,
            0 < dims.1 <= DIM_LIM,
        ensures
            final(self).wf(),
            world_step_rel(*old(self), *final(self), manual@, dims),
            final(self).track == old(self).track,
    {
        self.player.update(dims, manual, rng);
        let ghost bsnap = self.player.bullets@;
        let mut to_add: Vec<Asteroid> = Vec::new();
        let n = self.asteroids.len();
        let mut i: usize = 0;
        proof {
            assert(old(self).asteroids@.take(0) =~= Seq::<Asteroid>::empty());
        }
        while i < n
            invariant
                i <= n,
                n == self.asteroids@.len(),
                n == old(self).asteroids@.len(),
                self.wf(),
                0 < dims.0 <= DIM_LIM,
                0 < dims.1 <= DIM_LIM,
                manual@.len() == 4,
                player_step_rel(old(self).player, self.player, manual@, dims),
                self.player.bullets@.len() == bsnap.len(),
                forall|j: int|
                    0 <= j < bsnap.len() ==> (#[trigger] self.player.bullets@[j]).pos
                        == bsnap[j].pos && self.player.bullets@[j].vel == bsnap[j].vel,
                self.score == cap_add(
                    old(self).score as int,
                    spec_strike_count(bsnap, old(self).asteroids@, dims, i as int),
                ),
                self.score >= old(self).score,
                self.over == ((exists|t: int|
                    0 <= t < i && spec_hull_hit(
                        self.player.pos,
                        #[trigger] old(self).asteroids@[t],
                        dims,
                    )) || (i > 0 && self.player.lifespan > LIFESPAN_CAP && is_ai(
                    old(self).player.brain,
                ))),
                self.player.alive == (old(self).player.alive && !self.over),
                forall|t: int|
                    i <= t < n ==> #[trigger] self.asteroids@[t] == old(self).asteroids@[t],
                self.track == old(self).track,
                self.fitness == old(self).fitness,
                forall|t: int|
                    0 <= t < to_add@.len() ==> (#[trigger] to_add@[t]).wf() && to_add@[t].alive,
                spec_frags_of(bsnap, old(self).asteroids@.take(i as int), dims, to_add@),
                forall|t: int|
                    0 <= t < i ==> #[trigger] self.asteroids@[t] == (Asteroid {
                        alive: old(self).asteroids@[t].alive && !spec_struck(
                            bsnap,
                            old(self).asteroids@[t],
                            dims,
                        ),
                        ..spec_drifted(old(self).asteroids@[t], dims)
                    }),
            decreases n - i,
        {
            let ghost orig = self.asteroids@[i as int];
            let ghost pb = self.player.bullets@;
            let mut a = self.asteroids[i];
            a.update(dims);
            proof {
                assert(a == spec_drifted(orig, dims));
                lemma_strike_count_bounds(bsnap, old(self).asteroids@, dims, i as int);
            }
            let struck = self.player.check_bullet_collisions(&mut a);
            proof {
                if struck {
                    let ix = choose|jx: int|
                        0 <= jx < pb.len() && bullet_hits(#[trigger] pb[jx], spec_drifted(orig, dims))
                            && self.player.bullets@ == pb.update(
                            jx,
                            Bullet { alive: false, ..pb[jx] },
                        );
                    assert(spec_struck(pb, orig, dims));
                    assert forall|j: int|
                        0 <= j < bsnap.len() implies (#[trigger] self.player.bullets@[j]).pos
                        == bsnap[j].pos && self.player.bullets@[j].vel == bsnap[j].vel by {
                        if j == ix {
                            assert(self.player.bullets@[j] == (Bullet { alive: false, ..pb[ix] }));
                        } else {
                            assert(self.player.bullets@[j] == pb[j]);
                        }
                    }
                } else {
                    if spec_struck(pb, orig, dims) {
                        let jx = choose|jx: int|
                            0 <= jx < pb.len() && bullet_hits(#[trigger] pb[jx], spec_drifted(orig, dims));
                        assert(bullet_hits(pb[jx], spec_drifted(orig, dims)));
                        assert(false);
                    }
                }
                assert(struck == spec_struck(pb, orig, dims));
                lemma_struck_same_pos(pb, bsnap, orig, dims);
                assert(player_step_rel(old(self).player, self.player, manual@, dims));
            }
            let ghost pre_toadd = to_add@;
            if struck {
                if self.score < COUNTER_LIM {
                    self.score = self.score + 1;
                }
                match a.size {
                    AsteroidSize::Large => {
                        let rx = -800_000 + rng.next_below(1_600_000) as i64;
                        let ry = -800_000 + rng.next_below(1_600_000) as i64;
                        let rand = Vec2 { x: rx, y: ry };
                        let f1 = Asteroid::new_from(
                            a.pos,
                            a.vel.plus(rand),
                            AsteroidSize::Medium,
                            dims,
                            rng,
                        );
                        let f2 = Asteroid::new_from(
                            a.pos,
                            a.vel.minus(rand),
                            AsteroidSize::Medium,
                            dims,
                            rng,
                        );
                        to_add.push(f1);
                        to_add.push(f2);
                        proof {
                            let d = spec_drifted(orig, dims);
                            assert(f1.vel.x == spec_fx_add(d.vel.x as int, rx as int));
                            assert(f1.vel.y == spec_fx_add(d.vel.y as int, ry as int));
                            assert(f2.vel.x == spec_fx_sub(d.vel.x as int, rx as int));
                            assert(f2.vel.y == spec_fx_sub(d.vel.y as int, ry as int));
                            assert(spec_frag_pair(orig, f1, f2, dims));
                            assert(to_add@[to_add@.len() - 2] == f1);
                            assert(to_add@[to_add@.len() - 1] == f2);
                            assert(to_add@.take(to_add@.len() - 2) =~= pre_toadd);
                        }
                    },
                    AsteroidSize::Medium => {
                        let rx = -600_000 + rng.next_below(1_200_000) as i64;
                        let ry = -600_000 + rng.next_below(1_200_000) as i64;
                        let rand = Vec2 { x: rx, y: ry };
                        let f1 = Asteroid::new_from(
                            a.pos,
                            a.vel.plus(rand),
                            AsteroidSize::Small,
                            dims,
                            rng,
                        );
                        let f2 = Asteroid::new_from(
                            a.pos,
                            a.vel.minus(rand),
                            AsteroidSize::Small,
                            dims,
                            rng,
                        );
                        to_add.push(f1);
                        to_add.push(f2);
                        proof {
                            let d = spec_drifted(orig, dims);
                            assert(f1.vel.x == spec_fx_add(d.vel.x as int, rx as int));
                            assert(f1.vel.y == spec_fx_add(d.vel.y as int, ry as int));
                            assert(f2.vel.x == spec_fx_sub(d.vel.x as int, rx as int));
                            assert(f2.vel.y == spec_fx_sub(d.vel.y as int, ry as int));
                            assert(spec_frag_pair(orig, f1, f2, dims));
                            assert(to_add@[to_add@.len() - 2] == f1);
                            assert(to_add@[to_add@.len() - 1] == f2);
                            assert(to_add@.take(to_add@.len() - 2) =~= pre_toadd);
                        }
                    },
                    AsteroidSize::Small => {},
                }
            }
            let ghost over_before = self.over;
            let hit = self.player.check_player_collision(&a);
            proof {
                assert(hit == (spec_hull_hit(self.player.pos, orig, dims) || (
                self.player.lifespan > LIFESPAN_CAP && is_ai(old(self).player.brain))));
                assert(player_step_rel(old(self).player, self.player, manual@, dims));
            }
            if hit {
                self.over = true;
            }
            self.asteroids.set(i, a);
            i = i + 1;
            proof {
                assert((exists|t: int|
                    0 <= t < i && spec_hull_hit(
                        self.player.pos,
                        #[trigger] old(self).asteroids@[t],
                        dims,
                    )) == ((exists|t: int|
                    0 <= t < i - 1 && spec_hull_hit(
                        self.player.pos,
                        #[trigger] old(self).asteroids@[t],
                        dims,
                    )) || spec_hull_hit(self.player.pos, old(self).asteroids@[i - 1], dims))) by {
                    if exists|t: int|
                        0 <= t < i && spec_hull_hit(
                            self.player.pos,
                            #[trigger] old(self).asteroids@[t],
                            dims,
                        ) {
                        let w = choose|t: int|
                            0 <= t < i && spec_hull_hit(
                                self.player.pos,
                                #[trigger] old(self).asteroids@[t],
                                dims,
                            );
                        if w < i - 1 {
                            assert(spec_hull_hit(self.player.pos, old(self).asteroids@[w], dims));
                        }
                    }
                }
                assert(self.asteroids@[i - 1] == (Asteroid {
                    alive: old(self).asteroids@[i - 1].alive && !spec_struck(
                        bsnap,
                        old(self).asteroids@[i - 1],
                        dims,
                    ),
                    ..spec_drifted(old(self).asteroids@[i - 1], dims)
                }));
                assert(old(self).asteroids@.take(i as int).drop_last() =~= old(
                    self,
                ).asteroids@.take(i - 1));
                assert(old(self).asteroids@.take(i as int).last() == orig);
                assert(a.size == orig.size);
                if struck && orig.size != AsteroidSize::Small {
                    assert(spec_frags_of(bsnap, old(self).asteroids@.take(i as int), dims, to_add@));
                } else {
                    assert(to_add@ =~= pre_toadd);
                    assert(spec_frags_of(bsnap, old(self).asteroids@.take(i as int), dims, to_add@));
                }
            }
        }
        proof {
            assert(old(self).asteroids@.take(n as int) =~= old(self).asteroids@);
        }
        if self.player.is_ai() && self.player.lifespan > LIFESPAN_CAP {
            self.player.alive = false;
            self.over = true;
        }
        proof {
            assert(player_step_rel(old(self).player, self.player, manual@, dims));
        }
        self.fitness = compute_fitness(self.score, self.player.shots, self.player.lifespan);
        let ghost pmid = self.player;
        let ghost ovr = self.over;
        let ghost sc = self.score;
        let ghost base_upd = self.asteroids@;
        proof {
            assert(self.asteroids@ =~= base_upd + to_add@.take(0));
        }
        let m = to_add.len();
        let mut j: usize = 0;
        while j < m
            invariant
                j <= m,
                m == to_add@.len(),
                self.wf(),
                self.player == pmid,
                self.over == ovr,
                self.score == sc,
                n == old(self).asteroids@.len(),
                base_upd.len() == n,
                self.asteroids@ == base_upd + to_add@.take(j as int),
                spec_frags_of(bsnap, old(self).asteroids@, dims, to_add@),
                forall|t: int|
                    0 <= t < n ==> #[trigger] base_upd[t] == (Asteroid {
                        alive: old(self).asteroids@[t].alive && !spec_struck(
                            bsnap,
                            old(self).asteroids@[t],
                            dims,
                        ),
                        ..spec_drifted(old(self).asteroids@[t], dims)
                    }),
                forall|t: int|
                    0 <= t < to_add@.len() ==> (#[trigger] to_add@[t]).wf() && to_add@[t].alive,
                self.fitness == spec_fitness(
                    self.score as int,
                    self.player.shots as int,
                    self.player.lifespan as int,
                ),
                self.track == old(self).track,
                0 < dims.0 <= DIM_LIM,
                0 < dims.1 <= DIM_LIM,
            decreases m - j,
        {
            let a = to_add[j];
            self.asteroids.push(a);
            j = j + 1;
            proof {
                assert(self.asteroids@ =~= base_upd + to_add@.take(j as int));
            }
        }
        proof {
            assert(to_add@.take(m as int) =~= to_add@);
        }
        let total = self.asteroids.len();
        let mut kept: Vec<Asteroid> = Vec::new();
        let mut t: usize = 0;
        proof {
            assert(old(self).asteroids@.take(0) =~= Seq::<Asteroid>::empty());
        }
        while t < total
            invariant
                t <= total,
                total == self.asteroids@.len(),
                self.wf(),
                self.player == pmid,
                self.over == ovr,
                self.score == sc,
                n == old(self).asteroids@.len(),
                base_upd.len() == n,
                self.asteroids@ == base_upd + to_add@,
                spec_frags_of(bsnap, old(self).asteroids@, dims, to_add@),
                forall|x: int|
                    0 <= x < n ==> #[trigger] base_upd[x] == (Asteroid {
                        alive: old(self).asteroids@[x].alive && !spec_struck(
                            bsnap,
                            old(self).asteroids@[x],
                            dims,
                        ),
                        ..spec_drifted(old(self).asteroids@[x], dims)
                    }),
                forall|x: int|
                    0 <= x < to_add@.len() ==> (#[trigger] to_add@[x]).wf() && to_add@[x].alive,
                forall|x: int|
                    0 <= x < kept@.len() ==> (#[trigger] kept@[x]).wf() && kept@[x].alive,
                kept@.len() <= t,
                t <= n ==> kept@ == spec_survivors(old(self).asteroids@.take(t as int), bsnap, dims),
                t > n ==> kept@ == spec_survivors(old(self).asteroids@, bsnap, dims) + to_add@.take(
                    t - n,
                ),
                self.fitness == spec_fitness(
                    self.score as int,
                    self.player.shots as int,
                    self.player.lifespan as int,
                ),
                self.track == old(self).track,
                0 < dims.0 <= DIM_LIM,
                0 < dims.1 <= DIM_LIM,
            decreases total - t,
        {
            let a = self.asteroids[t];
            proof {
                if t < n {
                    assert(self.asteroids@[t as int] == base_upd[t as int]);
                } else {
                    assert(self.asteroids@[t as int] == to_add@[t - n]);
                }
            }
            if a.alive {
                kept.push(a);
            }
            t = t + 1;
            proof {
                if t <= n {
                    assert(old(self).asteroids@.take(t as int).drop_last() =~= old(
                        self,
                    ).asteroids@.take(t - 1));
                    assert(old(self).asteroids@.take(t as int).last() == old(
                        self,
                    ).asteroids@[t - 1]);
                    assert(kept@ == spec_survivors(
                        old(self).asteroids@.take(t as int),
                        bsnap,
                        dims,
                    ));
                } else {
                    assert(old(self).asteroids@.take(n as int) =~= old(self).asteroids@);
                    assert(to_add@.take(t - n) =~= to_add@.take(t - n - 1).push(
                        to_add@[t - n - 1],
                    ));
                    assert(kept@ == spec_survivors(old(self).asteroids@, bsnap, dims)
                        + to_add@.take(t - n));
                }
            }
        }
        self.asteroids = kept;
        proof {
            assert(old(self).asteroids@.take(n as int) =~= old(self).asteroids@);
            assert(to_add@.take(to_add@.len() as int) =~= to_add@);
            assert(self.asteroids@ =~= spec_survivors(old(self).asteroids@, bsnap, dims)
                + to_add@);
        }
        let ghost mut tail_seq: Seq<Asteroid> = Seq::empty();
        if self.player.lifespan % 200 == 0 {
            let spawn = Asteroid::new_to(
                self.player.pos,
                1_500_000,
                AsteroidSize::Large,
                dims,
                rng,
            );
            self.asteroids.push(spawn);
            proof {
                tail_seq = seq![spawn];
                assert(spec_aimed_spawn(spawn, self.player.pos, dims));
                assert(self.asteroids@ =~= spec_survivors(old(self).asteroids@, bsnap, dims)
                    + to_add@ + tail_seq);
            }
        } else {
            proof {
                assert(self.asteroids@ =~= spec_survivors(old(self).asteroids@, bsnap, dims)
                    + to_add@ + tail_seq);
            }
        }
        proof {
            lemma_strike_count_same_pos(
                self.player.bullets@,
                bsnap,
                old(self).asteroids@,
                dims,
                old(self).asteroids@.len() as int,
            );
            lemma_survivors_same_pos(self.player.bullets@, bsnap, old(self).asteroids@, dims);
            lemma_frags_same_pos(
                self.player.bullets@,
                bsnap,
                old(self).asteroids@,
                dims,
                to_add@,
            );
            assert(self.asteroids@ == spec_survivors(
                old(self).asteroids@,
                self.player.bullets@,
                dims,
            ) + to_add@ + tail_seq);
            assert(spec_frags_of(self.player.bullets@, old(self).asteroids@, dims, to_add@));
        }
    }
}

} // verus!
