//! The population: a fixed-size cohort of (environment, agent) pairs and
//! the generational genetic algorithm that breeds the next cohort.
//!
//! Selection combines elitism — the top `max(1, size / 20)` networks are
//! carried forward unmodified — with fitness-proportionate roulette
//! sampling over the cohort's fitness sum. A zero-fitness cohort degrades
//! deterministically to the top-ranked individual instead of failing.

use vstd::prelude::*;

use crate::asteroids::DIM_LIM;
use crate::fx::{FX_LIM, FX_ONE, Vec2, spec_dist_sq, vec2_band};
use crate::nn::{
    ActivationFunc, MAX_LAYERS, MAX_WIDTH, NN, copy_config, nn_equiv, valid_weight_idx, weight_at,
};
use crate::player::{Brain, NetConfig, Player, brain_nn, is_ai, spec_aug_config, spec_full_config};
use crate::rng::RandomSource;
use crate::world::{World, world_step_rel};

verus! {

/// Which pair to re-track automatically once the tracked one is over.
#[derive(Clone, Copy, Debug, PartialEq, Eq, Structural)]
pub enum AutoSwitch {
    Best,
    BestAlive,
}

/// The network of one world's agent.
pub open spec fn wnn(w: World) -> NN {
    brain_nn(w.player.brain)
}

/// The stored topology every network of a population shares.
pub open spec fn spec_pop_config(hl: Seq<usize>) -> Seq<usize> {
    spec_aug_config(spec_full_config(hl))
}

/// The elite count: the share of a cohort carried forward unmodified.
pub open spec fn spec_elite_count(size: int) -> int {
    if size / 20 < 1 {
        1
    } else {
        size / 20
    }
}

/// A ranking of a cohort: every index exactly once, in descending fitness
/// order.
pub open spec fn is_ranking(ord: Seq<usize>, ws: Seq<World>) -> bool {
    &&& ord.len() == ws.len()
    &&& forall|t: int| 0 <= t < ord.len() ==> (#[trigger] ord[t]) < ws.len()
    &&& forall|a: int, b: int|
        0 <= a <= b < ord.len() ==> ws[#[trigger] ord[a] as int].fitness
            >= ws[#[trigger] ord[b] as int].fitness
    &&& forall|a: int, b: int| 0 <= a < b < ord.len() ==> ord[a] != ord[b]
}

/// What one bred network is to its two parents: topology, activation
/// function and mutation rate from parent `a`; every weight either copied
/// from the corresponding weight of `a` or of `b`, or replaced by mutation
/// with a standard-normal draw inside its band.
pub open spec fn child_of(c: NN, a: NN, b: NN) -> bool {
    &&& c.config@ == a.config@
    &&& c.activ_func == a.activ_func
    &&& c.mut_rate == a.mut_rate
    &&& forall|i: int, r: int, j: int|
        valid_weight_idx(a.config@, i, r, j) ==> #[trigger] weight_at(c.weights@, i, r, j)
            == weight_at(a.weights@, i, r, j) || weight_at(c.weights@, i, r, j) == weight_at(
            b.weights@,
            i,
            r,
            j,
        ) || -6 * FX_ONE <= weight_at(c.weights@, i, r, j) <= 6 * FX_ONE
}

/// Sum of the fitness of the first `t` worlds in ranking order.
pub open spec fn sum_fit(ws: Seq<World>, ord: Seq<usize>, t: int) -> int
    decreases t,
{
    if t <= 0 {
        0
    } else {
        sum_fit(ws, ord, t - 1) + ws[ord[t - 1] as int].fitness
    }
}

/// A four-entry all-false manual input, for AI-driven worlds.
fn falses4() -> (r: Vec<bool>)
    ensures
        r@ =~= seq![false, false, false, false],
{
    let mut r: Vec<bool> = Vec::new();
    r.push(false);
    r.push(false);
    r.push(false);
    r.push(false);
    r
}

/// Rank the cohort: the indices of all worlds, sorted by fitness in
/// descending order (stable: equal fitness keeps the original order).
pub fn sort_indices_desc(worlds: &Vec<World>) -> (ord: Vec<usize>)
    ensures
        is_ranking(ord@, worlds@),
        ord@.len() == worlds@.len(),
        forall|t: int| 0 <= t < ord@.len() ==> (#[trigger] ord@[t]) < worlds@.len(),
        forall|a: int, b: int|
            0 <= a <= b < ord@.len() ==> worlds@[#[trigger] ord@[a] as int].fitness
                >= worlds@[#[trigger] ord@[b] as int].fitness,
        forall|a: int, b: int| 0 <= a < b < ord@.len() ==> ord@[a] != ord@[b],
{
    let n = worlds.len();
    let mut ord: Vec<usize> = Vec::new();
    let mut i: usize = 0;
    while i < n
        invariant
            i <= n,
            n == worlds@.len(),
            ord@.len() == i,
            forall|t: int| 0 <= t < ord@.len() ==> (#[trigger] ord@[t]) < i,
            forall|a: int, b: int|
                0 <= a <= b < ord@.len() ==> worlds@[#[trigger] ord@[a] as int].fitness
                    >= worlds@[#[trigger] ord@[b] as int].fitness,
            forall|a: int, b: int| 0 <= a < b < ord@.len() ==> ord@[a] != ord@[b],
        decreases n - i,
    {
        let fi = worlds[i].fitness;
        let mut p: usize = 0;
        while p < ord.len() && worlds[ord[p]].fitness >= fi
            invariant
                p <= ord@.len(),
                n == worlds@.len(),
                ord@.len() == i,
                i < n,
                fi == worlds@[i as int].fitness,
                forall|t: int| 0 <= t < ord@.len() ==> (#[trigger] ord@[t]) < i,
                forall|t: int|
                    0 <= t < p ==> worlds@[#[trigger] ord@[t] as int].fitness >= fi,
            decreases ord@.len() - p,
        {
            p = p + 1;
        }
        let ghost prev = ord@;
        ord.insert(p, i);
        proof {
            assert(ord@ == prev.insert(p as int, i));
            assert forall|t: int| 0 <= t < ord@.len() implies (#[trigger] ord@[t]) < i + 1 by {
                if t < p {
                    assert(ord@[t] == prev[t]);
                } else if t == p {
                } else {
                    assert(ord@[t] == prev[t - 1]);
                }
            }
            assert forall|a: int, b: int|
                0 <= a <= b < ord@.len() implies worlds@[#[trigger] ord@[a] as int].fitness
                >= worlds@[#[trigger] ord@[b] as int].fitness by {
                if a < p {
                    assert(ord@[a] == prev[a]);
                } else if a > p {
                    assert(ord@[a] == prev[a - 1]);
                }
                if b < p {
                    assert(ord@[b] == prev[b]);
                } else if b > p {
                    assert(ord@[b] == prev[b - 1]);
                }
                if p < prev.len() {
                    assert(worlds@[prev[p as int] as int].fitness < fi);
                }
            }
            assert forall|a: int, b: int|
                0 <= a < b < ord@.len() implies ord@[a] != ord@[b] by {
                if a < p {
                    assert(ord@[a] == prev[a]);
                } else if a > p {
                    assert(ord@[a] == prev[a - 1]);
                }
                if b < p {
                    assert(ord@[b] == prev[b]);
                } else if b > p {
                    assert(ord@[b] == prev[b - 1]);
                }
            }
        }
        i = i + 1;
    }
    ord
}

/// One fitness-proportionate draw over the ranked cohort. With a positive
/// fitness sum the chosen world always has positive fitness, so repeated
/// draws overwhelmingly favor fitter individuals; a zero (degenerate) sum
/// falls back deterministically to the top-ranked individual.
pub fn select_parent(worlds: &Vec<World>, ord: &Vec<usize>, total: u128, rng: &mut RandomSource) -> (idx:
    usize)
    requires
        ord@.len() == worlds@.len(),
        ord@.len() >= 1,
        forall|t: int| 0 <= t < ord@.len() ==> (#[trigger] ord@[t]) < worlds@.len(),
        forall|t: int| 0 <= t < worlds@.len() ==> 0 <= (#[trigger] worlds@[t]).fitness <= FX_LIM,
        total == sum_fit(worlds@, ord@, ord@.len() as int),
        total <= 100_000_000_000_000_000_000_000_000_000_000,
    ensures
        idx < worlds@.len(),
        total > 0 ==> worlds@[idx as int].fitness > 0,
        total == 0 ==> idx == ord@[0],
{
    if total == 0 {
        return ord[0];
    }
    let r = rng.next_below_u128(total);
    let n = ord.len();
    let mut sum: u128 = 0;
    let mut t: usize = 0;
    while t < n
        invariant
            t <= n,
            n == ord@.len(),
            n == worlds@.len(),
            forall|x: int| 0 <= x < ord@.len() ==> (#[trigger] ord@[x]) < worlds@.len(),
            forall|x: int|
                0 <= x < worlds@.len() ==> 0 <= (#[trigger] worlds@[x]).fitness <= FX_LIM,
            total == sum_fit(worlds@, ord@, n as int),
            total <= 100_000_000_000_000_000_000_000_000_000_000,
            r < total,
            sum == sum_fit(worlds@, ord@, t as int),
            sum <= r,
        decreases n - t,
    {
        let w = ord[t];
        let f = worlds[w].fitness as u128;
        let sum2 = sum + f;
        if sum2 > r {
            return w;
        }
        sum = sum2;
        t = t + 1;
    }
    proof {
        assert(sum == total);
        assert(false);
    }
    vstd::pervasive::unreached()
}

/// The cohort manager.
pub struct Population {
    pub size: usize,
    pub gen: i32,
    pub focus: bool,
    pub debug: bool,
    pub worlds: Vec<World>,
    pub track: usize,
    pub hlayers: Vec<usize>,
    pub auto_switch: Option<AutoSwitch>,
}

impl Population {
    /// Structural invariant: a constant cohort size, a valid tracked index,
    /// and every pair holding a well-formed AI world whose network shares
    /// the population's topology.
    pub open spec fn wf(self) -> bool {
        &&& 1 <= self.size
        &&& self.worlds@.len() == self.size
        &&& self.track < self.size
        &&& self.hlayers@.len() <= MAX_LAYERS - 2
        &&& forall|t: int| 0 <= t < self.hlayers@.len() ==> #[trigger] self.hlayers@[t] < MAX_WIDTH
        &&& forall|i: int|
            0 <= i < self.worlds@.len() ==> (#[trigger] self.worlds@[i]).wf() && is_ai(
                self.worlds@[i].player.brain,
            ) && wnn(self.worlds@[i]).config@ == spec_pop_config(self.hlayers@)
    }

    /// Build a cohort of independently initialized networks over the same
    /// topology, all evaluated from the same seed-driven random source.
    pub fn new(
        size: usize,
        auto_switch: Option<AutoSwitch>,
        hlayers: Vec<usize>,
        mut_rate: i64,
        activ: ActivationFunc,
        dims: (i64, i64),
        rng: &mut RandomSource,
    ) -> (r: Population)
        requires
            1 <= size,
            hlayers@.len() <= MAX_LAYERS - 2,
            forall|t: int| 0 <= t < hlayers@.len() ==> #[trigger] hlayers@[t] < MAX_WIDTH,
            0 <= mut_rate <= FX_ONE,
            0 < dims.0 <= DIM_LIM,
            0 < dims.1 <= DIM_LIM,
        ensures
            r.wf(),
            r.size == size,
            r.gen == 0,
            r.track == 0,
            r.focus,
            r.worlds@.len() == size,
            r.hlayers@ == hlayers@,
            r.auto_switch == auto_switch,
            r.worlds@[0].track,
            forall|i: int|
                0 <= i < r.worlds@.len() ==> wnn(#[trigger] r.worlds@[i]).mut_rate == mut_rate
                    && wnn(r.worlds@[i]).activ_func == activ && !r.worlds@[i].over
                    && r.worlds@[i].fitness == 0,
    {
        let mut worlds: Vec<World> = Vec::new();
        let mut i: usize = 0;
        while i < size
            invariant
                i <= size,
                hlayers@.len() <= MAX_LAYERS - 2,
                forall|t: int| 0 <= t < hlayers@.len() ==> #[trigger] hlayers@[t] < MAX_WIDTH,
                0 <= mut_rate <= FX_ONE,
                0 < dims.0 <= DIM_LIM,
                0 < dims.1 <= DIM_LIM,
                worlds@.len() == i,
                forall|t: int|
                    0 <= t < worlds@.len() ==> (#[trigger] worlds@[t]).wf() && is_ai(
                        worlds@[t].player.brain,
                    ) && wnn(worlds@[t]).config@ == spec_pop_config(hlayers@),
                forall|t: int|
                    0 <= t < worlds@.len() ==> wnn(#[trigger] worlds@[t]).mut_rate == mut_rate
                        && wnn(worlds@[t]).activ_func == activ && !worlds@[t].over
                        && worlds@[t].fitness == 0,
            decreases size - i,
        {
            let cfg = NetConfig { hlayers: copy_config(&hlayers), mut_rate, activ };
            let w = World::new(Some(cfg), dims, rng);
            worlds.push(w);
            i = i + 1;
        }
        let mut p = Population {
            size,
            gen: 0,
            focus: true,
            debug: false,
            worlds,
            track: 0,
            hlayers,
            auto_switch,
        };
        let ghost before = p.worlds@;
        p.worlds[0].track(true);
        proof {
            assert forall|i: int|
                0 <= i < p.worlds@.len() implies (#[trigger] p.worlds@[i]).wf() && is_ai(
                p.worlds@[i].player.brain,
            ) && wnn(p.worlds@[i]).config@ == spec_pop_config(p.hlayers@) && wnn(
                p.worlds@[i],
            ).mut_rate == mut_rate && wnn(p.worlds@[i]).activ_func == activ && !p.worlds@[i].over
                && p.worlds@[i].fitness == 0 by {
                if i == 0 {
                    assert(p.worlds@[0] == (World { track: true, ..before[0] }));
                } else {
                    assert(p.worlds@[i] == before[i]);
                }
            }
        }
        p
    }

    /// Untrack the current pair and track the one with maximal fitness,
    /// among all pairs or only the live ones. A pure re-tracking query: it
    /// never changes the algorithm's outcome.
    pub fn track_best(&mut self, can_be_dead: bool)
        requires
            old(self).wf(),
        ensures
            final(self).wf(),
            final(self).worlds@.len() == old(self).worlds@.len(),
            final(self).gen == old(self).gen,
            final(self).size == old(self).size,
            final(self).auto_switch == old(self).auto_switch,
            final(self).hlayers == old(self).hlayers,
            forall|i: int|
                0 <= i < final(self).worlds@.len() ==> #[trigger] final(self).worlds@[i] == (World {
                    track: final(self).worlds@[i].track,
                    ..old(self).worlds@[i]
                }),
            (exists|i: int|
                0 <= i < old(self).worlds@.len() && (!(#[trigger] old(self).worlds@[i]).over
                    || can_be_dead)) ==> (!old(self).worlds@[final(self).track as int].over
                || can_be_dead) && final(self).track < old(self).worlds@.len() && final(self).worlds@[final(self).track as int].track && forall|i: int|
                0 <= i < old(self).worlds@.len() && (!(#[trigger] old(self).worlds@[i]).over
                    || can_be_dead) ==> old(self).worlds@[i].fitness <= old(self).worlds@[final(self).track as int].fitness,
            !(exists|i: int|
                0 <= i < old(self).worlds@.len() && (!(#[trigger] old(self).worlds@[i]).over
                    || can_be_dead)) ==> final(self).track == old(self).track && !final(self).worlds@[old(self).track as int].track,
            forall|i: int|
                0 <= i < final(self).worlds@.len() && i != final(self).track && i != old(self).track ==> (#[trigger] final(self).worlds@[i]).track == old(self).worlds@[i].track,
            old(self).track != final(self).track ==> !final(self).worlds@[old(self).track as int].track,
    {
        let n = self.worlds.len();
        self.worlds[self.track].track(false);
        let mut best: usize = 0;
        let mut found = false;
        let mut i: usize = 0;
        while i < n
            invariant
                i <= n,
                n == self.worlds@.len(),
                n == old(self).worlds@.len(),
                self.wf(),
                self.gen == old(self).gen,
                self.track == old(self).track,
                forall|t: int|
                    0 <= t < self.worlds@.len() ==> #[trigger] self.worlds@[t] == (World {
                        track: self.worlds@[t].track,
                        ..old(self).worlds@[t]
                    }),
                forall|t: int|
                    0 <= t < n && t != old(self).track ==> (#[trigger] self.worlds@[t]).track
                        == old(self).worlds@[t].track,
                !self.worlds@[old(self).track as int].track,
                found ==> best < n && (!self.worlds@[best as int].over || can_be_dead),
                found ==> forall|t: int|
                    0 <= t < i && (!(#[trigger] self.worlds@[t]).over || can_be_dead)
                        ==> self.worlds@[t].fitness <= self.worlds@[best as int].fitness,
                !found ==> forall|t: int|
                    0 <= t < i ==> !(!(#[trigger] self.worlds@[t]).over || can_be_dead),
            decreases n - i,
        {
            let eligible = !self.worlds[i].over || can_be_dead;
            if eligible && (!found || self.worlds[i].fitness >= self.worlds[best].fitness) {
                best = i;
                found = true;
            }
            i = i + 1;
        }
        let ghost mid = self.worlds@;
        if found {
            self.worlds[best].track(true);
            self.track = best;
            proof {
                assert forall|t: int|
                    0 <= t < self.worlds@.len() implies #[trigger] self.worlds@[t] == (World {
                        track: self.worlds@[t].track,
                        ..old(self).worlds@[t]
                    }) by {
                    assert(mid[t] == (World { track: mid[t].track, ..old(self).worlds@[t] }));
                }
                assert(self.worlds@[best as int].track);
                assert forall|t: int|
                    0 <= t < self.worlds@.len() && t != best as int && t != old(self).track
                        implies (#[trigger] self.worlds@[t]).track == old(self).worlds@[t].track by {
                    assert(self.worlds@[t] == mid[t]);
                }
                if old(self).track != best {
                    assert(self.worlds@[old(self).track as int] == mid[old(self).track as int]);
                }
            }
        }
        proof {
            assert forall|t: int|
                0 <= t < n implies (#[trigger] old(self).worlds@[t]).over == self.worlds@[t].over
                && old(self).worlds@[t].fitness == self.worlds@[t].fitness by {
                assert(self.worlds@[t] == (World {
                    track: self.worlds@[t].track,
                    ..old(self).worlds@[t]
                }));
            }
            if exists|i: int|
                0 <= i < old(self).worlds@.len() && (!(#[trigger] old(self).worlds@[i]).over
                    || can_be_dead) {
                let w = choose|i: int|
                    0 <= i < old(self).worlds@.len() && (!(#[trigger] old(self).worlds@[i]).over
                        || can_be_dead);
                assert(!self.worlds@[w].over || can_be_dead);
                assert(found);
                assert forall|i: int|
                    0 <= i < old(self).worlds@.len() && (!(#[trigger] old(self).worlds@[i]).over
                        || can_be_dead) implies old(self).worlds@[i].fitness <= old(self).worlds@[self.track as int].fitness by {
                    assert(!self.worlds@[i].over || can_be_dead);
                    assert(self.worlds@[i].fitness <= mid[best as int].fitness);
                    assert(mid[best as int].fitness == self.worlds@[best as int].fitness);
                }
            }
        }
    }

    /// Untrack the current pair and track the previous generation's best,
    /// which sits at index zero after a generational replacement.
    pub fn track_prev_best(&mut self)
        requires
            old(self).wf(),
        ensures
            final(self).wf(),
            final(self).track == 0,
            final(self).gen == old(self).gen,
            final(self).worlds@.len() == old(self).worlds@.len(),
            forall|i: int|
                0 <= i < final(self).worlds@.len() ==> #[trigger] final(self).worlds@[i] == (World {
                    track: final(self).worlds@[i].track,
                    ..old(self).worlds@[i]
                }),
    {
        self.worlds[self.track].track(false);
        self.worlds[0].track(true);
        self.track = 0;
    }

    /// Track the first live, untracked pair whose agent sits within a
    /// small radius of the given point; with no such pair, change nothing.
    pub fn change_track(&mut self, pos: Vec2)
        requires
            old(self).wf(),
            vec2_band(pos),
        ensures
            final(self).wf(),
            final(self).gen == old(self).gen,
            final(self).worlds@.len() == old(self).worlds@.len(),
            forall|i: int|
                0 <= i < final(self).worlds@.len() ==> #[trigger] final(self).worlds@[i] == (World {
                    track: final(self).worlds@[i].track,
                    ..old(self).worlds@[i]
                }),
            (*final(self) == *old(self)) || (final(self).track < old(self).worlds@.len() && !old(
                self,
            ).worlds@[final(self).track as int].over && !old(
                self,
            ).worlds@[final(self).track as int].track && spec_dist_sq(
                old(self).worlds@[final(self).track as int].player.pos,
                pos,
            ) < 256_000_000_000_000 && final(self).worlds@[final(self).track as int].track),
    {
        let n = self.worlds.len();
        let mut i: usize = 0;
        while i < n
            invariant
                i <= n,
                n == self.worlds@.len(),
                n == old(self).worlds@.len(),
                self.wf(),
                vec2_band(pos),
                self.gen == old(self).gen,
                *self == *old(self),
                forall|t: int|
                    0 <= t < self.worlds@.len() ==> #[trigger] self.worlds@[t] == (World {
                        track: self.worlds@[t].track,
                        ..old(self).worlds@[t]
                    }),
            decreases n - i,
        {
            let near = self.worlds[i].player.pos.dist_sq(pos) < 256_000_000_000_000;
            if !self.worlds[i].over && !self.worlds[i].track && near {
                let tr = self.track;
                let ghost before = self.worlds@;
                self.worlds[tr].track(false);
                let ghost mid = self.worlds@;
                self.worlds[i].track(true);
                self.track = i;
                proof {
                    assert forall|t: int|
                        0 <= t < self.worlds@.len() implies #[trigger] self.worlds@[t] == (World {
                            track: self.worlds@[t].track,
                            ..old(self).worlds@[t]
                        }) by {
                        assert(before[t] == (World {
                            track: before[t].track,
                            ..old(self).worlds@[t]
                        }));
                        assert(mid[t] == (World { track: mid[t].track, ..before[t] }));
                    }
                    assert(self.worlds@[i as int].track);
                }
                return ;
            }
            i = i + 1;
        }
    }

    /// One frame-synchronous tick: every live pair advances by one world
    /// step in the same fixed order while terminal pairs stay frozen
    /// (their fitness, score, outcome and brain unchanged); re-track if
    /// the tracked pair is over and an auto-switch policy is set; once no
    /// pair remains alive, advance the generation counter and perform one
    /// generational replacement as an atomic step.
    #[verifier::rlimit(100)]
    pub fn update(&mut self, dims: (i64, i64), rng: &mut RandomSource)
        requires
            old(self).wf(),
            0 < dims.0 <= DIM_LIM,
            0 < dims.1 <= DIM_LIM,
        ensures
            final(self).wf(),
            final(self).worlds@.len() == old(self).worlds@.len(),
            final(self).size == old(self).size,
            final(self).auto_switch == old(self).auto_switch,
            (exists|i: int|
                0 <= i < old(self).worlds@.len() && !(#[trigger] old(self).worlds@[i]).over) ==> {
                &&& final(self).gen == old(self).gen
                &&& forall|i: int|
                    0 <= i < old(self).worlds@.len() ==> ((#[trigger] old(self).worlds@[i]).over
                        ==> final(self).worlds@[i] == (World {
                        track: final(self).worlds@[i].track,
                        ..old(self).worlds@[i]
                    }))
                &&& forall|i: int|
                    0 <= i < old(self).worlds@.len() ==> (!(#[trigger] old(self).worlds@[i]).over
                        ==> world_step_rel(
                        old(self).worlds@[i],
                        final(self).worlds@[i],
                        seq![false, false, false, false],
                        dims,
                    ))
                &&& (final(self).track == old(self).track || (old(self).auto_switch is Some && {
                    let cbd = old(self).auto_switch == Some(AutoSwitch::Best);
                    &&& final(self).track < final(self).worlds@.len()
                    &&& (!final(self).worlds@[final(self).track as int].over || cbd)
                    &&& forall|i: int|
                        0 <= i < final(self).worlds@.len() && (!(#[trigger] final(self).worlds@[i]).over
                            || cbd) ==> final(self).worlds@[i].fitness
                            <= final(self).worlds@[final(self).track as int].fitness
                }))
                &&& ((final(self).worlds@[old(self).track as int].over && old(self).auto_switch
                    is Some && (exists|i: int|
                    0 <= i < final(self).worlds@.len() && (!(#[trigger] final(self).worlds@[i]).over
                        || old(self).auto_switch == Some(AutoSwitch::Best)))) ==> {
                    let cbd = old(self).auto_switch == Some(AutoSwitch::Best);
                    &&& final(self).track < final(self).worlds@.len()
                    &&& (!final(self).worlds@[final(self).track as int].over || cbd)
                    &&& forall|i: int|
                        0 <= i < final(self).worlds@.len() && (!(#[trigger] final(self).worlds@[i]).over
                            || cbd) ==> final(self).worlds@[i].fitness
                            <= final(self).worlds@[final(self).track as int].fitness
                })
            },
            (forall|i: int|
                0 <= i < old(self).worlds@.len() ==> (#[trigger] old(self).worlds@[i]).over) ==> {
                &&& (old(self).gen < i32::MAX ==> final(self).gen == old(self).gen + 1)
                &&& (old(self).gen == i32::MAX ==> final(self).gen == old(self).gen)
                &&& final(self).track == 0
                &&& forall|i: int|
                    0 <= i < final(self).worlds@.len() ==> !(#[trigger] final(self).worlds@[i]).over
                        && final(self).worlds@[i].fitness == 0 && final(self).worlds@[i].score == 0
                        && final(self).worlds@[i].player.lifespan == 0
            },
    {
        let n = self.worlds.len();
        let manual = falses4();
        let mut alive = false;
        let mut i: usize = 0;
        while i < n
            invariant
                i <= n,
                n == self.worlds@.len(),
                n == old(self).worlds@.len(),
                self.wf(),
                self.size == old(self).size,
                self.gen == old(self).gen,
                self.track == old(self).track,
                self.auto_switch == old(self).auto_switch,
                self.hlayers == old(self).hlayers,
                manual@ == seq![false, false, false, false],
                0 < dims.0 <= DIM_LIM,
                0 < dims.1 <= DIM_LIM,
                alive == (exists|t: int|
                    0 <= t < i && !(#[trigger] old(self).worlds@[t]).over),
                forall|t: int|
                    i <= t < n ==> #[trigger] self.worlds@[t] == old(self).worlds@[t],
                forall|t: int|
                    0 <= t < i ==> ((#[trigger] old(self).worlds@[t]).over ==> self.worlds@[t]
                        == old(self).worlds@[t]),
                forall|t: int|
                    0 <= t < i ==> (!(#[trigger] old(self).worlds@[t]).over ==> world_step_rel(
                        old(self).worlds@[t],
                        self.worlds@[t],
                        seq![false, false, false, false],
                        dims,
                    ) && self.worlds@[t].track == old(self).worlds@[t].track),
            decreases n - i,
        {
            let ghost was_over = self.worlds@[i as int].over;
            if !self.worlds[i].over {
                alive = true;
                self.worlds[i].update(dims, &manual, rng);
            }
            i = i + 1;
            proof {
                if alive {
                    if !was_over {
                        assert(!old(self).worlds@[i - 1].over);
                    } else {
                        let w = choose|t: int|
                            0 <= t < i - 1 && !(#[trigger] old(self).worlds@[t]).over;
                        assert(!old(self).worlds@[w].over);
                    }
                }
            }
        }
        let ghost mid = self.worlds@;
        let mut switched = false;
        if self.worlds[self.track].over {
            match self.auto_switch {
                Some(AutoSwitch::Best) => {
                    self.track_best(true);
                    switched = true;
                },
                Some(AutoSwitch::BestAlive) => {
                    self.track_best(false);
                    switched = true;
                },
                None => {},
            }
        }
        proof {
            assert forall|t: int|
                0 <= t < n implies #[trigger] self.worlds@[t] == (World {
                track: self.worlds@[t].track,
                ..mid[t]
            }) by {
                if !switched {
                    assert(self.worlds@[t] == mid[t]);
                }
            }
            assert forall|t: int|
                0 <= t < n implies ((#[trigger] old(self).worlds@[t]).over ==> self.worlds@[t]
                == (World { track: self.worlds@[t].track, ..old(self).worlds@[t] })) by {
                assert(self.worlds@[t] == (World { track: self.worlds@[t].track, ..mid[t] }));
            }
            assert forall|t: int|
                0 <= t < n implies (!(#[trigger] old(self).worlds@[t]).over ==> world_step_rel(
                old(self).worlds@[t],
                self.worlds@[t],
                seq![false, false, false, false],
                dims,
            )) by {
                if !old(self).worlds@[t].over {
                    assert(self.worlds@[t] == (World {
                        track: self.worlds@[t].track,
                        ..mid[t]
                    }));
                    assert(world_step_rel(
                        old(self).worlds@[t],
                        mid[t],
                        seq![false, false, false, false],
                        dims,
                    ));
                }
            }
        }
        if !alive {
            if self.gen < i32::MAX {
                self.gen = self.gen + 1;
            }
            self.next_gen(dims, rng);
        }
    }

    /// One generational replacement: rank the cohort by frozen fitness,
    /// carry the top `max(1, size / 20)` networks forward unmodified into
    /// fresh environments, and fill the remaining slots with mutated
    /// crossover children of two fitness-proportionate parents from the old
    /// cohort. The cohort size is preserved exactly: elite count plus
    /// generated children equals the original size, for any size of at
    /// least one; afterwards the first elite (the previous generation's
    /// best) is the tracked pair.
    #[verifier::rlimit(100)]
    pub fn next_gen(&mut self, dims: (i64, i64), rng: &mut RandomSource)
        requires
            old(self).wf(),
            0 < dims.0 <= DIM_LIM,
            0 < dims.1 <= DIM_LIM,
        ensures
            final(self).wf(),
            final(self).worlds@.len() == old(self).worlds@.len(),
            final(self).size == old(self).size,
            final(self).gen == old(self).gen,
            final(self).auto_switch == old(self).auto_switch,
            final(self).hlayers == old(self).hlayers,
            final(self).track == 0,
            final(self).worlds@[0].track,
            forall|i: int|
                0 <= i < final(self).worlds@.len() ==> !(#[trigger] final(self).worlds@[i]).over
                    && final(self).worlds@[i].fitness == 0 && final(self).worlds@[i].score == 0
                    && final(self).worlds@[i].player.lifespan == 0
                    && final(self).worlds@[i].player.shots == 0,
            exists|ordw: Seq<usize>|
                #[trigger] is_ranking(ordw, old(self).worlds@) && (forall|t: int|
                    0 <= t < spec_elite_count(old(self).size as int) && t
                        < final(self).worlds@.len() ==> nn_equiv(
                        wnn(#[trigger] final(self).worlds@[t]),
                        wnn(old(self).worlds@[ordw[t] as int]),
                    )),
            forall|t: int|
                spec_elite_count(old(self).size as int) <= t < final(self).worlds@.len()
                    ==> exists|ia: int, ib: int|
                    0 <= ia < old(self).worlds@.len() && 0 <= ib < old(self).worlds@.len()
                        && #[trigger] child_of(
                        wnn(#[trigger] final(self).worlds@[t]),
                        wnn(old(self).worlds@[ia]),
                        wnn(old(self).worlds@[ib]),
                    ),
    {
        let n = self.worlds.len();
        let ord = sort_indices_desc(&self.worlds);
        let mut total: u128 = 0;
        let mut t: usize = 0;
        while t < n
            invariant
                t <= n,
                n == self.worlds@.len(),
                self.wf(),
                self.worlds@ == old(self).worlds@,
                ord@.len() == n,
                forall|x: int| 0 <= x < ord@.len() ==> (#[trigger] ord@[x]) < n,
                total == sum_fit(self.worlds@, ord@, t as int),
                total <= (t as int) * (FX_LIM as int),
            decreases n - t,
        {
            let w = ord[t];
            let f = self.worlds[w].fitness as u128;
            proof {
                assert((t as int) * (FX_LIM as int) + FX_LIM == (t as int + 1) * (FX_LIM as int))
                    by (nonlinear_arith);
                assert((t as int + 1) * (FX_LIM as int)
                    <= 100_000_000_000_000_000_000_000_000_000_000) by (nonlinear_arith)
                    requires
                        0 <= t as int + 1 <= 0x1_0000_0000_0000_0000,
                ;
            }
            total = total + f;
            t = t + 1;
        }
        proof {
            assert((n as int) * (FX_LIM as int) <= 100_000_000_000_000_000_000_000_000_000_000)
                by (nonlinear_arith)
                requires
                    0 <= n as int <= 0x1_0000_0000_0000_0000,
            ;
        }
        let e_raw = self.size / 20;
        let e = if e_raw < 1 {
            1
        } else {
            e_raw
        };
        proof {
            assert(e == spec_elite_count(self.size as int));
        }
        let mut new_worlds: Vec<World> = Vec::new();
        let mut k: usize = 0;
        while k < e
            invariant
                k <= e,
                1 <= e <= self.size,
                e == spec_elite_count(self.size as int),
                n == self.worlds@.len(),
                self.wf(),
                self.worlds@ == old(self).worlds@,
                is_ranking(ord@, self.worlds@),
                ord@.len() == n,
                forall|x: int| 0 <= x < ord@.len() ==> (#[trigger] ord@[x]) < n,
                0 < dims.0 <= DIM_LIM,
                0 < dims.1 <= DIM_LIM,
                new_worlds@.len() == k,
                forall|x: int|
                    0 <= x < new_worlds@.len() ==> (#[trigger] new_worlds@[x]).wf() && is_ai(
                        new_worlds@[x].player.brain,
                    ) && wnn(new_worlds@[x]).config@ == spec_pop_config(self.hlayers@)
                        && !new_worlds@[x].over && new_worlds@[x].fitness == 0
                        && new_worlds@[x].score == 0 && new_worlds@[x].player.lifespan == 0
                        && new_worlds@[x].player.shots == 0,
                forall|x: int|
                    0 <= x < new_worlds@.len() ==> nn_equiv(
                        wnn(#[trigger] new_worlds@[x]),
                        wnn(self.worlds@[ord@[x] as int]),
                    ),
            decreases e - k,
        {
            let w_idx = ord[k];
            let brain = self.worlds[w_idx].see_brain().duplicate();
            proof {
                assert(brain.config@ == spec_pop_config(self.hlayers@));
            }
            let nw = World::simulate(brain, dims, rng);
            new_worlds.push(nw);
            k = k + 1;
        }
        while new_worlds.len() < self.size
            invariant
                1 <= e <= self.size,
                e == spec_elite_count(self.size as int),
                n == self.worlds@.len(),
                self.wf(),
                self.worlds@ == old(self).worlds@,
                is_ranking(ord@, self.worlds@),
                ord@.len() == n,
                forall|x: int| 0 <= x < ord@.len() ==> (#[trigger] ord@[x]) < n,
                total == sum_fit(self.worlds@, ord@, n as int),
                total <= 100_000_000_000_000_000_000_000_000_000_000,
                0 < dims.0 <= DIM_LIM,
                0 < dims.1 <= DIM_LIM,
                e <= new_worlds@.len(),
                new_worlds@.len() <= self.size,
                forall|x: int|
                    0 <= x < new_worlds@.len() ==> (#[trigger] new_worlds@[x]).wf() && is_ai(
                        new_worlds@[x].player.brain,
                    ) && wnn(new_worlds@[x]).config@ == spec_pop_config(self.hlayers@)
                        && !new_worlds@[x].over && new_worlds@[x].fitness == 0
                        && new_worlds@[x].score == 0 && new_worlds@[x].player.lifespan == 0
                        && new_worlds@[x].player.shots == 0,
                forall|x: int|
                    0 <= x < e ==> nn_equiv(
                        wnn(#[trigger] new_worlds@[x]),
                        wnn(self.worlds@[ord@[x] as int]),
                    ),
                forall|x: int|
                    e <= x < new_worlds@.len() ==> exists|ia: int, ib: int|
                        0 <= ia < n && 0 <= ib < n && #[trigger] child_of(
                            wnn(#[trigger] new_worlds@[x]),
                            wnn(self.worlds@[ia]),
                            wnn(self.worlds@[ib]),
                        ),
            decreases self.size - new_worlds@.len(),
        {
            let ia = select_parent(&self.worlds, &ord, total, rng);
            let ib = select_parent(&self.worlds, &ord, total, rng);
            let ghost ann = wnn(self.worlds@[ia as int]);
            let ghost bnn = wnn(self.worlds@[ib as int]);
            let pa = self.worlds[ia].see_brain();
            let pb = self.worlds[ib].see_brain();
            let mut child = match NN::crossover(pa, pb, rng) {
                Ok(c) => c,
                Err(_) => {
                    proof {
                        assert(false);
                    }
                    vstd::pervasive::unreached()
                },
            };
            let ghost cmid = child;
            child.mutate(rng);
            proof {
                assert(child.config@ == spec_pop_config(self.hlayers@));
                assert forall|i2: int, r2: int, j2: int|
                    valid_weight_idx(ann.config@, i2, r2, j2) implies #[trigger] weight_at(
                    child.weights@,
                    i2,
                    r2,
                    j2,
                ) == weight_at(ann.weights@, i2, r2, j2) || weight_at(child.weights@, i2, r2, j2)
                    == weight_at(bnn.weights@, i2, r2, j2) || -6 * FX_ONE <= weight_at(
                    child.weights@,
                    i2,
                    r2,
                    j2,
                ) <= 6 * FX_ONE by {
                    assert(weight_at(cmid.weights@, i2, r2, j2) == weight_at(
                        ann.weights@,
                        i2,
                        r2,
                        j2,
                    ) || weight_at(cmid.weights@, i2, r2, j2) == weight_at(
                        bnn.weights@,
                        i2,
                        r2,
                        j2,
                    ));
                }
                assert(child_of(child, ann, bnn));
            }
            let ghost prev_new = new_worlds@;
            let nw = World::simulate(child, dims, rng);
            new_worlds.push(nw);
            proof {
                assert(wnn(nw) == child);
                assert forall|x: int|
                    e <= x < new_worlds@.len() implies exists|ia2: int, ib2: int|
                        0 <= ia2 < n && 0 <= ib2 < n && #[trigger] child_of(
                            wnn(#[trigger] new_worlds@[x]),
                            wnn(self.worlds@[ia2]),
                            wnn(self.worlds@[ib2]),
                        ) by {
                    if x < prev_new.len() {
                        assert(new_worlds@[x] == prev_new[x]);
                        let (wa, wb) = choose|ia2: int, ib2: int|
                            0 <= ia2 < n && 0 <= ib2 < n && #[trigger] child_of(
                                wnn(prev_new[x]),
                                wnn(self.worlds@[ia2]),
                                wnn(self.worlds@[ib2]),
                            );
                        assert(child_of(wnn(new_worlds@[x]), wnn(self.worlds@[wa]), wnn(
                            self.worlds@[wb],
                        )));
                    } else {
                        assert(new_worlds@[x] == nw);
                        assert(child_of(wnn(new_worlds@[x]), wnn(self.worlds@[ia as int]), wnn(
                            self.worlds@[ib as int],
                        )));
                    }
                }
            }
        }
        self.worlds = new_worlds;
        self.track = 0;
        let ghost before = self.worlds@;
        self.worlds[0].track(true);
        proof {
            assert forall|i: int|
                0 <= i < self.worlds@.len() implies #[trigger] self.worlds@[i] == (World {
                track: self.worlds@[i].track,
                ..before[i]
            }) by {
                if i == 0 {
                    assert(self.worlds@[0] == (World { track: true, ..before[0] }));
                } else {
                    assert(self.worlds@[i] == before[i]);
                }
            }
            assert(is_ranking(ord@, old(self).worlds@));
            assert forall|t2: int|
                0 <= t2 < spec_elite_count(old(self).size as int) && t2 < self.worlds@.len()
                    implies nn_equiv(
                wnn(#[trigger] self.worlds@[t2]),
                wnn(old(self).worlds@[ord@[t2] as int]),
            ) by {
                assert(wnn(self.worlds@[t2]) == wnn(before[t2]));
            }
            assert forall|t2: int|
                spec_elite_count(old(self).size as int) <= t2 < self.worlds@.len() implies exists|
                ia2: int,
                ib2: int,
            |
                0 <= ia2 < old(self).worlds@.len() && 0 <= ib2 < old(self).worlds@.len()
                    && #[trigger] child_of(
                    wnn(#[trigger] self.worlds@[t2]),
                    wnn(old(self).worlds@[ia2]),
                    wnn(old(self).worlds@[ib2]),
                ) by {
                let (wa, wb) = choose|ia2: int, ib2: int|
                    0 <= ia2 < n && 0 <= ib2 < n && #[trigger] child_of(
                        wnn(before[t2]),
                        wnn(old(self).worlds@[ia2]),
                        wnn(old(self).worlds@[ib2]),
                    );
                assert(wnn(self.worlds@[t2]) == wnn(before[t2]));
                assert(child_of(wnn(self.worlds@[t2]), wnn(old(self).worlds@[wa]), wnn(
                    old(self).worlds@[wb],
                )));
            }
        }
    }

    /// Hot-patch every current network's mutation rate; only future
    /// generations inherit it as their default.
    #[verifier::rlimit(100)]
    pub fn change_mut(&mut self, mut_rate: i64)
        requires
            old(self).wf(),
            0 <= mut_rate <= FX_ONE,
        ensures
            final(self).wf(),
            final(self).gen == old(self).gen,
            final(self).track == old(self).track,
            final(self).size == old(self).size,
            final(self).auto_switch == old(self).auto_switch,
            final(self).hlayers == old(self).hlayers,
            final(self).worlds@.len() == old(self).worlds@.len(),
            forall|i: int|
                0 <= i < final(self).worlds@.len() ==> wnn(#[trigger] final(self).worlds@[i]) == (NN {
                    mut_rate,
                    ..wnn(old(self).worlds@[i])
                }),
            forall|i: int|
                0 <= i < final(self).worlds@.len() ==> #[trigger] final(self).worlds@[i] == (World {
                    player: final(self).worlds@[i].player,
                    ..old(self).worlds@[i]
                }) && final(self).worlds@[i].player == (Player {
                    brain: final(self).worlds@[i].player.brain,
                    ..old(self).worlds@[i].player
                }),
    {
        let n = self.worlds.len();
        let mut i: usize = 0;
        while i < n
            invariant
                i <= n,
                n == self.worlds@.len(),
                self.wf(),
                0 <= mut_rate <= FX_ONE,
                self.gen == old(self).gen,
                self.size == old(self).size,
                self.track == old(self).track,
                self.auto_switch == old(self).auto_switch,
                self.hlayers == old(self).hlayers,
                forall|t: int|
                    i <= t < self.worlds@.len() ==> #[trigger] self.worlds@[t] == old(self).worlds@[t],
                forall|t: int|
                    0 <= t < i ==> wnn(#[trigger] self.worlds@[t]) == (NN {
                        mut_rate,
                        ..wnn(old(self).worlds@[t])
                    }) && self.worlds@[t] == (World {
                        player: self.worlds@[t].player,
                        ..old(self).worlds@[t]
                    }) && self.worlds@[t].player == (Player {
                        brain: self.worlds@[t].player.brain,
                        ..old(self).worlds@[t].player
                    }),
            decreases n - i,
        {
            match &mut self.worlds[i].player.brain {
                Brain::Ai(nn) => {
                    nn.mut_rate = mut_rate;
                },
                Brain::Human => {},
            }
            i = i + 1;
        }
    }

    /// Hot-patch every current network's activation function; only future
    /// generations inherit it as their default.
    #[verifier::rlimit(100)]
    pub fn change_activ(&mut self, activ: ActivationFunc)
        requires
            old(self).wf(),
        ensures
            final(self).wf(),
            final(self).gen == old(self).gen,
            final(self).track == old(self).track,
            final(self).size == old(self).size,
            final(self).auto_switch == old(self).auto_switch,
            final(self).hlayers == old(self).hlayers,
            final(self).worlds@.len() == old(self).worlds@.len(),
            forall|i: int|
                0 <= i < final(self).worlds@.len() ==> wnn(#[trigger] final(self).worlds@[i]) == (NN {
                    activ_func: activ,
                    ..wnn(old(self).worlds@[i])
                }),
            forall|i: int|
                0 <= i < final(self).worlds@.len() ==> #[trigger] final(self).worlds@[i] == (World {
                    player: final(self).worlds@[i].player,
                    ..old(self).worlds@[i]
                }) && final(self).worlds@[i].player == (Player {
                    brain: final(self).worlds@[i].player.brain,
                    ..old(self).worlds@[i].player
                }),
    {
        let n = self.worlds.len();
        let mut i: usize = 0;
        while i < n
            invariant
                i <= n,
                n == self.worlds@.len(),
                self.wf(),
                self.gen == old(self).gen,
                self.size == old(self).size,
                self.track == old(self).track,
                self.auto_switch == old(self).auto_switch,
                self.hlayers == old(self).hlayers,
                forall|t: int|
                    i <= t < self.worlds@.len() ==> #[trigger] self.worlds@[t] == old(self).worlds@[t],
                forall|t: int|
                    0 <= t < i ==> wnn(#[trigger] self.worlds@[t]) == (NN {
                        activ_func: activ,
                        ..wnn(old(self).worlds@[t])
                    }) && self.worlds@[t] == (World {
                        player: self.worlds@[t].player,
                        ..old(self).worlds@[t]
                    }) && self.worlds@[t].player == (Player {
                        brain: self.worlds@[t].player.brain,
                        ..old(self).worlds@[t].player
                    }),
            decreases n - i,
        {
            match &mut self.worlds[i].player.brain {
                Brain::Ai(nn) => {
                    nn.activ_func = activ;
                },
                Brain::Human => {},
            }
            i = i + 1;
        }
    }
}

} // verus!
