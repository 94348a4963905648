//! Feed-forward neural networks over fixed-point weights.
//!
//! A network owns a bias-augmented topology, one weight matrix per layer
//! transition, a closed-set activation function, and a mutation rate. It
//! supports inference, gene-level crossover, in-place mutation, and an exact
//! snapshot round trip (see `codec`).
//!
//! The activation functions are the standard piecewise-linear fixed-point
//! transforms: `ReLU` is exact; `Sigmoid` is the hard sigmoid
//! `clamp(1/2 + x/4, 0, 1)`; `Tanh` is the hard tanh `clamp(x, -1, 1)`.

use vstd::prelude::*;

use crate::EngineError;
use crate::fx::{
    FX_LIM, FX_ONE, div_toward_zero, fx_clamp, fx_mul, isqrt_u128, rescale_i128,
};
use crate::rng::RandomSource;

verus! {

/// Upper bound on the number of topology entries a network may hold.
pub const MAX_LAYERS: usize = 16;

/// Upper bound on a single (bias-augmented) layer width.
pub const MAX_WIDTH: usize = 4096;

/// The closed set of elementwise activation transforms.
#[derive(Clone, Copy, Debug, PartialEq, Eq, Structural)]
pub enum ActivationFunc {
    ReLU,
    Sigmoid,
    Tanh,
}

/// Rectified linear unit.
pub open spec fn spec_relu(x: int) -> int {
    if x < 0 {
        0
    } else {
        x
    }
}

/// Hard sigmoid: `clamp(1/2 + x/4, 0, 1)` in logical units.
pub open spec fn spec_sigmoid(x: int) -> int {
    let t = 500_000 + div_toward_zero(x, 4);
    if t < 0 {
        0
    } else if t > FX_ONE {
        FX_ONE as int
    } else {
        t
    }
}

/// Hard tanh: `clamp(x, -1, 1)` in logical units.
pub open spec fn spec_tanh(x: int) -> int {
    if x < -FX_ONE {
        -FX_ONE as int
    } else if x > FX_ONE {
        FX_ONE as int
    } else {
        x
    }
}

/// The elementwise transform of one activation function.
pub open spec fn spec_activate(a: ActivationFunc, x: int) -> int {
    match a {
        ActivationFunc::ReLU => spec_relu(x),
        ActivationFunc::Sigmoid => spec_sigmoid(x),
        ActivationFunc::Tanh => spec_tanh(x),
    }
}

/// The fixed decoding threshold an agent compares outputs against: a high
/// saturating value for the bounded `[0, 1]` sigmoid, zero for the others.
/// This asymmetry is a deliberate, fixed policy.
pub open spec fn spec_threshold(a: ActivationFunc) -> int {
    if a == ActivationFunc::Sigmoid {
        850_000
    } else {
        0
    }
}

/// Apply an activation function to a saturated pre-activation.
pub fn activate(a: ActivationFunc, x: i64) -> (r: i64)
    requires
        -FX_LIM <= x <= FX_LIM,
    ensures
        r == spec_activate(a, x as int),
        -FX_LIM <= r <= FX_LIM,
{
    match a {
        ActivationFunc::ReLU => {
            if x < 0 {
                0
            } else {
                x
            }
        },
        ActivationFunc::Sigmoid => {
            if x >= 0 {
                let q = (x as u64) / 4;
                if q >= 500_000 {
                    FX_ONE
                } else {
                    500_000 + q as i64
                }
            } else {
                let m = (-x) as u64;
                let q = m / 4;
                if q >= 500_000 {
                    0
                } else {
                    500_000 - q as i64
                }
            }
        },
        ActivationFunc::Tanh => {
            if x < -FX_ONE {
                -FX_ONE
            } else if x > FX_ONE {
                FX_ONE
            } else {
                x
            }
        },
    }
}

/// The decoding threshold as an executable value.
pub fn threshold(a: ActivationFunc) -> (r: i64)
    ensures
        r == spec_threshold(a),
{
    if a == ActivationFunc::Sigmoid {
        850_000
    } else {
        0
    }
}

/// A sequence of stored values as mathematical integers.
pub open spec fn seq_int(s: Seq<i64>) -> Seq<int> {
    s.map(|t: int, x: i64| x as int)
}

/// A weight matrix as mathematical integers.
pub open spec fn mat_int(m: Vec<Vec<i64>>) -> Seq<Seq<int>> {
    m@.map(|t: int, row: Vec<i64>| seq_int(row@))
}

/// All weight matrices as mathematical integers.
pub open spec fn weights_int(ws: Seq<Vec<Vec<i64>>>) -> Seq<Seq<Seq<int>>> {
    ws.map(|t: int, m: Vec<Vec<i64>>| mat_int(m))
}

/// Each entry saturated into the representable band.
pub open spec fn clamp_seq(y: Seq<int>) -> Seq<int> {
    y.map(|t: int, v: int| fx_clamp(v))
}

/// Dot product of the first `n` entries of two sequences.
pub open spec fn dot_prefix(a: Seq<int>, b: Seq<int>, n: int) -> int
    decreases n,
{
    if n <= 0 {
        0
    } else {
        dot_prefix(a, b, n - 1) + a[n - 1] * b[n - 1]
    }
}

/// Dot product over the whole left sequence.
pub open spec fn dot_full(a: Seq<int>, b: Seq<int>) -> int {
    dot_prefix(a, b, a.len() as int)
}

/// One neuron: dot the weight row with the bias-augmented activation,
/// scale back down, saturate, then apply the activation function.
pub open spec fn spec_neuron(row: Seq<int>, y: Seq<int>, act: ActivationFunc) -> int {
    spec_activate(act, fx_clamp(div_toward_zero(dot_full(row, y), FX_ONE as int)))
}

/// One layer transition: every row of the matrix applied to the same
/// bias-augmented activation vector.
pub open spec fn spec_layer(m: Seq<Seq<int>>, y: Seq<int>, act: ActivationFunc) -> Seq<int> {
    Seq::new(m.len(), |r: int| spec_neuron(m[r], y.push(FX_ONE as int), act))
}

/// The layer transitions applied in order.
pub open spec fn spec_forward(ws: Seq<Seq<Seq<int>>>, y: Seq<int>, act: ActivationFunc) -> Seq<int>
    decreases ws.len(),
{
    if ws.len() == 0 {
        y
    } else {
        spec_forward(ws.drop_first(), spec_layer(ws[0], y, act), act)
    }
}

proof fn lemma_dot_prefix_bound(a: Seq<int>, b: Seq<int>, n: int)
    requires
        0 <= n <= a.len(),
        n <= b.len(),
        forall|t: int| 0 <= t < n ==> -FX_LIM <= #[trigger] a[t] <= FX_LIM,
        forall|t: int| 0 <= t < n ==> -FX_LIM <= #[trigger] b[t] <= FX_LIM,
    ensures
        -n * 1_000_000_000_000_000_000_000_000 <= dot_prefix(a, b, n) <= n
            * 1_000_000_000_000_000_000_000_000,
    decreases n,
{
    if n > 0 {
        lemma_dot_prefix_bound(a, b, n - 1);
        assert(-1_000_000_000_000_000_000_000_000 <= a[n - 1] * b[n - 1]
            <= 1_000_000_000_000_000_000_000_000) by (nonlinear_arith)
            requires
                -FX_LIM <= a[n - 1] <= FX_LIM,
                -FX_LIM <= b[n - 1] <= FX_LIM,
        ;
    }
}

/// Dot product of a weight row with an activation vector, in a wide
/// accumulator that cannot overflow at the engine's width bound.
fn dot_row(a: &Vec<i64>, b: &Vec<i64>) -> (r: i128)
    requires
        a@.len() == b@.len(),
        a@.len() <= MAX_WIDTH,
        forall|t: int| 0 <= t < a@.len() ==> -FX_LIM <= #[trigger] a@[t] <= FX_LIM,
        forall|t: int| 0 <= t < b@.len() ==> -FX_LIM <= #[trigger] b@[t] <= FX_LIM,
    ensures
        r == dot_full(seq_int(a@), seq_int(b@)),
        -5_000_000_000_000_000_000_000_000_000 <= r <= 5_000_000_000_000_000_000_000_000_000,
{
    let n = a.len();
    let mut acc: i128 = 0;
    let mut j: usize = 0;
    while j < n
        invariant
            j <= n,
            n == a@.len(),
            n == b@.len(),
            n <= MAX_WIDTH,
            forall|t: int| 0 <= t < a@.len() ==> -FX_LIM <= #[trigger] a@[t] <= FX_LIM,
            forall|t: int| 0 <= t < b@.len() ==> -FX_LIM <= #[trigger] b@[t] <= FX_LIM,
            acc == dot_prefix(seq_int(a@), seq_int(b@), j as int),
            -(j as int) * 1_000_000_000_000_000_000_000_000 <= acc <= (j as int)
                * 1_000_000_000_000_000_000_000_000,
        decreases n - j,
    {
        proof {
            assert(-1_000_000_000_000_000_000_000_000 <= (a@[j as int] as int) * (b@[j as int] as int)
                <= 1_000_000_000_000_000_000_000_000) by (nonlinear_arith)
                requires
                    -FX_LIM <= a@[j as int] <= FX_LIM,
                    -FX_LIM <= b@[j as int] <= FX_LIM,
            ;
            assert((j as int) * 1_000_000_000_000_000_000_000_000 <= 4096
                * 1_000_000_000_000_000_000_000_000) by (nonlinear_arith)
                requires
                    0 <= j as int <= 4096,
            ;
        }
        let p: i128 = (a[j] as i128) * (b[j] as i128);
        acc = acc + p;
        j = j + 1;
        proof {
            assert(((j - 1) as int + 1) * 1_000_000_000_000_000_000_000_000 == ((j - 1) as int)
                * 1_000_000_000_000_000_000_000_000 + 1_000_000_000_000_000_000_000_000)
                by (nonlinear_arith);
        }
    }
    proof {
        assert((n as int) * 1_000_000_000_000_000_000_000_000 <= 4096
            * 1_000_000_000_000_000_000_000_000) by (nonlinear_arith)
            requires
                0 <= n as int <= 4096,
        ;
    }
    acc
}

/// A feed-forward neural network.
///
/// `config` is the bias-augmented topology: every entry but the last is its
/// layer's logical width plus one reserved bias unit. `weights[i]` maps the
/// bias-augmented activation of layer `i` (length `config[i]`) to the
/// pre-activation of layer `i + 1`.
#[derive(Debug, PartialEq)]
pub struct NN {
    pub config: Vec<usize>,
    pub weights: Vec<Vec<Vec<i64>>>,
    pub activ_func: ActivationFunc,
    pub mut_rate: i64,
}

/// The row count of weight matrix `i`: the logical width of layer `i + 1`.
pub open spec fn spec_rows(config: Seq<usize>, i: int) -> int {
    if i + 2 == config.len() {
        config[i + 1] as int
    } else {
        config[i + 1] - 1
    }
}

/// Shape and band constraints of one weight matrix.
pub open spec fn mat_wf(m: Vec<Vec<i64>>, rows: int, cols: int) -> bool {
    &&& m@.len() == rows
    &&& forall|r: int|
        0 <= r < rows ==> (#[trigger] m@[r])@.len() == cols && forall|j: int|
            0 <= j < cols ==> -FX_LIM <= #[trigger] m@[r]@[j] <= FX_LIM
}

/// One weight element.
pub open spec fn weight_at(ws: Seq<Vec<Vec<i64>>>, i: int, r: int, j: int) -> i64 {
    ws[i]@[r]@[j]
}

/// Whether `(i, r, j)` addresses a weight element under this topology.
pub open spec fn valid_weight_idx(config: Seq<usize>, i: int, r: int, j: int) -> bool {
    &&& 0 <= i < config.len() - 1
    &&& 0 <= r < spec_rows(config, i)
    &&& 0 <= j < config[i]
}

/// Two networks with the same topology, weights, activation function and
/// mutation rate: they are indistinguishable to every engine operation.
pub open spec fn nn_equiv(a: NN, b: NN) -> bool {
    &&& a.config@ == b.config@
    &&& weights_int(a.weights@) == weights_int(b.weights@)
    &&& a.activ_func == b.activ_func
    &&& a.mut_rate == b.mut_rate
}

/// Exact comparison of two topology vectors.
fn config_eq(a: &Vec<usize>, b: &Vec<usize>) -> (r: bool)
    ensures
        r <==> a@ == b@,
{
    if a.len() != b.len() {
        return false;
    }
    let n = a.len();
    let mut i: usize = 0;
    while i < n
        invariant
            i <= n,
            n == a@.len(),
            n == b@.len(),
            forall|t: int| 0 <= t < i ==> a@[t] == b@[t],
        decreases n - i,
    {
        if a[i] != b[i] {
            return false;
        }
        i = i + 1;
    }
    proof {
        assert(a@ =~= b@);
    }
    true
}

/// Copy a topology vector.
pub(crate) fn copy_config(a: &Vec<usize>) -> (r: Vec<usize>)
    ensures
        r@ == a@,
{
    let n = a.len();
    let mut out: Vec<usize> = Vec::new();
    let mut i: usize = 0;
    while i < n
        invariant
            i <= n,
            n == a@.len(),
            out@.len() == i,
            forall|t: int| 0 <= t < i ==> out@[t] == a@[t],
        decreases n - i,
    {
        out.push(a[i]);
        i = i + 1;
    }
    proof {
        assert(out@ =~= a@);
    }
    out
}

impl NN {
    /// Structural invariant: topology bounds, matching matrix shapes,
    /// saturated weights, and a mutation rate in `[0, 1]`.
    pub open spec fn wf(self) -> bool {
        &&& 2 <= self.config@.len() <= MAX_LAYERS
        &&& forall|i: int|
            0 <= i < self.config@.len() ==> 1 <= #[trigger] self.config@[i] <= MAX_WIDTH
        &&& forall|i: int| 0 <= i < self.config@.len() - 1 ==> #[trigger] self.config@[i] >= 2
        &&& self.weights@.len() == self.config@.len() - 1
        &&& forall|i: int|
            0 <= i < self.weights@.len() ==> mat_wf(
                #[trigger] self.weights@[i],
                spec_rows(self.config@, i),
                self.config@[i] as int,
            )
        &&& 0 <= self.mut_rate <= FX_ONE
    }

    /// The logical input width: the first layer's width without its bias unit.
    pub open spec fn input_width(self) -> int {
        self.config@[0] - 1
    }

    /// The output width: the last layer's width (no bias unit is reserved).
    pub open spec fn output_width(self) -> int {
        self.config@[self.config@.len() - 1] as int
    }

    /// Build a randomly initialized network.
    ///
    /// `config` lists the logical layer widths, input first, output last;
    /// every non-output entry is stored with one extra bias unit. Weights get
    /// He-style initialization: a standard-normal sample scaled by
    /// `sqrt(2 / fan_out)`, where `fan_out` is the receiving layer's logical
    /// neuron count.
    pub fn new(config: &Vec<usize>, mut_rate: i64, activ: ActivationFunc, rng: &mut RandomSource)
        -> (r: NN)
        requires
            2 <= config@.len() <= MAX_LAYERS,
            forall|i: int| 0 <= i < config@.len() ==> 1 <= #[trigger] config@[i] < MAX_WIDTH,
            0 <= mut_rate <= FX_ONE,
        ensures
            r.wf(),
            r.config@.len() == config@.len(),
            forall|i: int|
                0 <= i < config@.len() ==> #[trigger] r.config@[i] == if i + 1 < config@.len() {
                    config@[i] + 1
                } else {
                    config@[i] as int
                },
            r.activ_func == activ,
            r.mut_rate == mut_rate,
    {
        let k = config.len();
        let mut aug: Vec<usize> = Vec::new();
        let mut i: usize = 0;
        while i < k
            invariant
                i <= k,
                k == config@.len(),
                2 <= k <= MAX_LAYERS,
                forall|t: int| 0 <= t < k ==> 1 <= #[trigger] config@[t] < MAX_WIDTH,
                aug@.len() == i,
                forall|t: int|
                    0 <= t < i ==> #[trigger] aug@[t] == if t + 1 < k {
                        config@[t] + 1
                    } else {
                        config@[t] as int
                    },
            decreases k - i,
        {
            if i + 1 < k {
                aug.push(config[i] + 1);
            } else {
                aug.push(config[i]);
            }
            i = i + 1;
        }
        let mut weights: Vec<Vec<Vec<i64>>> = Vec::new();
        let mut li: usize = 0;
        while li < k - 1
            invariant
                li <= k - 1,
                k == config@.len(),
                2 <= k <= MAX_LAYERS,
                forall|t: int| 0 <= t < k ==> 1 <= #[trigger] config@[t] < MAX_WIDTH,
                aug@.len() == k,
                forall|t: int|
                    0 <= t < k ==> #[trigger] aug@[t] == if t + 1 < k {
                        config@[t] + 1
                    } else {
                        config@[t] as int
                    },
                weights@.len() == li,
                forall|t: int|
                    0 <= t < li ==> mat_wf(
                        #[trigger] weights@[t],
                        spec_rows(aug@, t),
                        aug@[t] as int,
                    ),
            decreases k - 1 - li,
        {
            let rows: usize = if li + 2 == k {
                aug[li + 1]
            } else {
                aug[li + 1] - 1
            };
            let cols: usize = aug[li];
            let fan_out: u64 = rows as u64;
            // sqrt(2 / fan_out) in fixed point: isqrt(2 * FX_ONE^2 / fan_out).
            let scale64: u64 = isqrt_u128((2_000_000_000_000u128) / (fan_out as u128));
            proof {
                assert(scale64 as int <= 1_500_000) by (nonlinear_arith)
                    requires
                        (scale64 as int) * (scale64 as int) <= 2_000_000_000_000,
                        scale64 >= 0,
                ;
            }
            let scale: i64 = scale64 as i64;
            let mut m: Vec<Vec<i64>> = Vec::new();
            let mut r: usize = 0;
            while r < rows
                invariant
                    r <= rows,
                    -FX_LIM <= scale <= FX_LIM,
                    m@.len() == r,
                    forall|t: int|
                        0 <= t < r ==> (#[trigger] m@[t])@.len() == cols && forall|j: int|
                            0 <= j < cols ==> -FX_LIM <= #[trigger] m@[t]@[j] <= FX_LIM,
                decreases rows - r,
            {
                let mut row: Vec<i64> = Vec::new();
                let mut j: usize = 0;
                while j < cols
                    invariant
                        j <= cols,
                        -FX_LIM <= scale <= FX_LIM,
                        row@.len() == j,
                        forall|t: int| 0 <= t < j ==> -FX_LIM <= #[trigger] row@[t] <= FX_LIM,
                    decreases cols - j,
                {
                    let sample = rng.next_standard_normal();
                    let w = fx_mul(sample, scale);
                    row.push(w);
                    j = j + 1;
                }
                m.push(row);
                r = r + 1;
            }
            weights.push(m);
            li = li + 1;
        }
        NN { config: aug, weights, activ_func: activ, mut_rate }
    }

    /// The mathematical meaning of inference: inputs saturated into the
    /// representable band, then every layer transition applied in order.
    pub open spec fn spec_feed_forward(self, inputs: Seq<i64>) -> Seq<int> {
        spec_forward(weights_int(self.weights@), clamp_seq(seq_int(inputs)), self.activ_func)
    }

    /// Run inference. The input vector must have the topology's logical
    /// input width; otherwise the call fails with `DimensionMismatch`. The
    /// bias unit of every layer, the input layer included, is an implicit
    /// trailing one, and the activation function is applied to every layer's
    /// result, the output layer included.
    pub fn feed_forward(&self, inputs: &Vec<i64>) -> (r: Result<Vec<i64>, EngineError>)
        requires
            self.wf(),
        ensures
            r is Ok <==> inputs@.len() == self.input_width(),
            r is Err ==> r == Err::<Vec<i64>, EngineError>(EngineError::DimensionMismatch),
            r matches Ok(out) ==> seq_int(out@) == self.spec_feed_forward(inputs@)
                && out@.len() == self.output_width(),
    {
        let k = self.config.len();
        if inputs.len() != self.config[0] - 1 {
            return Err(EngineError::DimensionMismatch);
        }
        let ghost ws = weights_int(self.weights@);
        let mut y: Vec<i64> = Vec::new();
        let mut i: usize = 0;
        while i < inputs.len()
            invariant
                i <= inputs@.len(),
                y@.len() == i,
                forall|t: int|
                    0 <= t < i ==> #[trigger] y@[t] == fx_clamp(inputs@[t] as int),
                forall|t: int| 0 <= t < i ==> -FX_LIM <= #[trigger] y@[t] <= FX_LIM,
            decreases inputs@.len() - i,
        {
            let c = crate::fx::clamp_i128(inputs[i] as i128);
            y.push(c);
            i = i + 1;
        }
        proof {
            assert(seq_int(y@) =~= clamp_seq(seq_int(inputs@)));
        }
        let ghost y0 = clamp_seq(seq_int(inputs@));
        proof {
            assert(ws.skip(0) =~= ws);
        }
        let mut li: usize = 0;
        while li < k - 1
            invariant
                self.wf(),
                k == self.config@.len(),
                li <= k - 1,
                ws == weights_int(self.weights@),
                y@.len() == self.config@[li as int] - if li < k - 1 {
                    1int
                } else {
                    0int
                },
                forall|t: int| 0 <= t < y@.len() ==> -FX_LIM <= #[trigger] y@[t] <= FX_LIM,
                spec_forward(ws.skip(li as int), seq_int(y@), self.activ_func) == spec_forward(
                    ws,
                    y0,
                    self.activ_func,
                ),
            decreases k - 1 - li,
        {
            let ghost y_in = seq_int(y@);
            let m = &self.weights[li];
            let rows = m.len();
            y.push(FX_ONE);
            proof {
                assert(seq_int(y@) =~= y_in.push(FX_ONE as int));
                assert(mat_wf(self.weights@[li as int], spec_rows(self.config@, li as int),
                    self.config@[li as int] as int));
            }
            let mut y2: Vec<i64> = Vec::new();
            let mut r: usize = 0;
            while r < rows
                invariant
                    self.wf(),
                    k == self.config@.len(),
                    li < k - 1,
                    m == &self.weights@[li as int],
                    rows == spec_rows(self.config@, li as int),
                    y@.len() == self.config@[li as int],
                    seq_int(y@) == y_in.push(FX_ONE as int),
                    forall|t: int| 0 <= t < y@.len() ==> -FX_LIM <= #[trigger] y@[t] <= FX_LIM,
                    r <= rows,
                    y2@.len() == r,
                    forall|t: int|
                        0 <= t < r ==> #[trigger] y2@[t] == spec_neuron(
                            mat_int(self.weights@[li as int])[t],
                            y_in.push(FX_ONE as int),
                            self.activ_func,
                        ),
                    forall|t: int| 0 <= t < y2@.len() ==> -FX_LIM <= #[trigger] y2@[t] <= FX_LIM,
                decreases rows - r,
            {
                let acc = dot_row(&m[r], &y);
                let pre = rescale_i128(acc);
                let out = activate(self.activ_func, pre);
                proof {
                    assert(mat_int(self.weights@[li as int])[r as int] == seq_int(
                        self.weights@[li as int]@[r as int]@,
                    ));
                }
                y2.push(out);
                r = r + 1;
            }
            proof {
                assert(seq_int(y2@) =~= spec_layer(
                    mat_int(self.weights@[li as int]),
                    y_in,
                    self.activ_func,
                ));
                assert(ws.skip(li as int)[0] == mat_int(self.weights@[li as int]));
                assert(ws.skip(li as int).drop_first() =~= ws.skip(li as int + 1));
            }
            y = y2;
            li = li + 1;
        }
        proof {
            assert(ws.skip(k - 1) =~= Seq::<Seq<Seq<int>>>::empty());
            assert(seq_int(y@) == spec_forward(ws, y0, self.activ_func));
        }
        Ok(y)
    }

    /// Uniform gene-level crossover. The parents must have element-wise
    /// equal topologies; otherwise the call fails with `ConfigMismatch`.
    /// Every weight element of the child is copied from the corresponding
    /// element of `a` or of `b`, each with probability one half; the
    /// activation function and mutation rate are copied from parent `a`.
    pub fn crossover(a: &NN, b: &NN, rng: &mut RandomSource) -> (r: Result<NN, EngineError>)
        requires
            a.wf(),
            b.wf(),
        ensures
            r is Ok <==> a.config@ == b.config@,
            r is Err ==> r == Err::<NN, EngineError>(EngineError::ConfigMismatch),
            r matches Ok(c) ==> c.wf() && c.config@ == a.config@ && c.activ_func == a.activ_func
                && c.mut_rate == a.mut_rate && forall|i: int, rr: int, j: int|
                valid_weight_idx(a.config@, i, rr, j) ==> #[trigger] weight_at(
                    c.weights@,
                    i,
                    rr,
                    j,
                ) == weight_at(a.weights@, i, rr, j) || weight_at(c.weights@, i, rr, j)
                    == weight_at(b.weights@, i, rr, j),
    {
        if !config_eq(&a.config, &b.config) {
            return Err(EngineError::ConfigMismatch);
        }
        let k = a.config.len();
        let mut ws: Vec<Vec<Vec<i64>>> = Vec::new();
        let mut li: usize = 0;
        while li < k - 1
            invariant
                a.wf(),
                b.wf(),
                a.config@ == b.config@,
                k == a.config@.len(),
                li <= k - 1,
                ws@.len() == li,
                forall|t: int|
                    0 <= t < li ==> mat_wf(
                        #[trigger] ws@[t],
                        spec_rows(a.config@, t),
                        a.config@[t] as int,
                    ),
                forall|i: int, rr: int, j: int|
                    (0 <= i < li && 0 <= rr < spec_rows(a.config@, i) && 0 <= j < a.config@[i])
                        ==> #[trigger] weight_at(ws@, i, rr, j) == weight_at(a.weights@, i, rr, j)
                        || weight_at(ws@, i, rr, j) == weight_at(b.weights@, i, rr, j),
            decreases k - 1 - li,
        {
            let rows = a.weights[li].len();
            let cols = a.config[li];
            let mut m: Vec<Vec<i64>> = Vec::new();
            let mut r: usize = 0;
            while r < rows
                invariant
                    a.wf(),
                    b.wf(),
                    a.config@ == b.config@,
                    k == a.config@.len(),
                    li < k - 1,
                    rows == spec_rows(a.config@, li as int),
                    cols == a.config@[li as int],
                    r <= rows,
                    m@.len() == r,
                    forall|t: int|
                        0 <= t < r ==> (#[trigger] m@[t])@.len() == cols && forall|j: int|
                            0 <= j < cols ==> -FX_LIM <= #[trigger] m@[t]@[j] <= FX_LIM,
                    forall|t: int, j: int|
                        (0 <= t < r && 0 <= j < cols) ==> #[trigger] m@[t]@[j] == weight_at(
                            a.weights@,
                            li as int,
                            t,
                            j,
                        ) || m@[t]@[j] == weight_at(b.weights@, li as int, t, j),
                decreases rows - r,
            {
                let mut row: Vec<i64> = Vec::new();
                let mut j: usize = 0;
                while j < cols
                    invariant
                        a.wf(),
                        b.wf(),
                        a.config@ == b.config@,
                        k == a.config@.len(),
                        li < k - 1,
                        r < rows,
                        rows == spec_rows(a.config@, li as int),
                        cols == a.config@[li as int],
                        j <= cols,
                        row@.len() == j,
                        forall|t: int| 0 <= t < j ==> -FX_LIM <= #[trigger] row@[t] <= FX_LIM,
                        forall|t: int|
                            0 <= t < j ==> #[trigger] row@[t] == weight_at(
                                a.weights@,
                                li as int,
                                r as int,
                                t,
                            ) || row@[t] == weight_at(b.weights@, li as int, r as int, t),
                    decreases cols - j,
                {
                    let coin = rng.next_below(2);
                    let w = if coin == 0 {
                        a.weights[li][r][j]
                    } else {
                        b.weights[li][r][j]
                    };
                    row.push(w);
                    j = j + 1;
                }
                m.push(row);
                r = r + 1;
            }
            let ghost prev = ws@;
            ws.push(m);
            proof {
                assert forall|i: int, rr: int, j: int|
                    0 <= i <= li && 0 <= rr < spec_rows(a.config@, i) && 0 <= j < a.config@[i]
                        implies (weight_at(ws@, i, rr, j) == weight_at(a.weights@, i, rr, j)
                        || weight_at(ws@, i, rr, j) == weight_at(b.weights@, i, rr, j)) by {
                    if i < li {
                        assert(ws@[i] == prev[i]);
                        assert(weight_at(prev, i, rr, j) == weight_at(a.weights@, i, rr, j)
                            || weight_at(prev, i, rr, j) == weight_at(b.weights@, i, rr, j));
                    } else {
                        assert(ws@[i] == m);
                        assert(m@[rr]@[j] == weight_at(a.weights@, i, rr, j) || m@[rr]@[j]
                            == weight_at(b.weights@, i, rr, j));
                    }
                }
            }
            li = li + 1;
        }
        let child = NN {
            config: copy_config(&a.config),
            weights: ws,
            activ_func: a.activ_func,
            mut_rate: a.mut_rate,
        };
        Ok(child)
    }

    /// In-place mutation: every weight element is independently replaced,
    /// with probability `mut_rate`, by a freshly drawn standard-normal
    /// sample (direct replacement, not a perturbation). A rate of zero
    /// leaves every weight unchanged; a rate of one replaces every weight.
    pub fn mutate(&mut self, rng: &mut RandomSource)
        requires
            old(self).wf(),
        ensures
            final(self).wf(),
            final(self).config@ == old(self).config@,
            final(self).activ_func == old(self).activ_func,
            final(self).mut_rate == old(self).mut_rate,
            forall|i: int, rr: int, j: int|
                valid_weight_idx(old(self).config@, i, rr, j) ==> #[trigger] weight_at(
                    final(self).weights@,
                    i,
                    rr,
                    j,
                ) == weight_at(old(self).weights@, i, rr, j) || (old(self).mut_rate > 0 && -6
                    * FX_ONE <= weight_at(final(self).weights@, i, rr, j) <= 6 * FX_ONE),
            old(self).mut_rate == FX_ONE ==> forall|i: int, rr: int, j: int|
                valid_weight_idx(old(self).config@, i, rr, j) ==> -6 * FX_ONE <= #[trigger] weight_at(
                    final(self).weights@,
                    i,
                    rr,
                    j,
                ) <= 6 * FX_ONE,
    {
        let k = self.config.len();
        let mut ws: Vec<Vec<Vec<i64>>> = Vec::new();
        let mut li: usize = 0;
        while li < k - 1
            invariant
                *self == *old(self),
                self.wf(),
                k == self.config@.len(),
                li <= k - 1,
                ws@.len() == li,
                forall|t: int|
                    0 <= t < li ==> mat_wf(
                        #[trigger] ws@[t],
                        spec_rows(self.config@, t),
                        self.config@[t] as int,
                    ),
                forall|i: int, rr: int, j: int|
                    (0 <= i < li && 0 <= rr < spec_rows(self.config@, i) && 0 <= j
                        < self.config@[i]) ==> #[trigger] weight_at(ws@, i, rr, j) == weight_at(
                        self.weights@,
                        i,
                        rr,
                        j,
                    ) || (self.mut_rate > 0 && -6 * FX_ONE <= weight_at(ws@, i, rr, j) <= 6
                        * FX_ONE),
                self.mut_rate == FX_ONE ==> forall|i: int, rr: int, j: int|
                    (0 <= i < li && 0 <= rr < spec_rows(self.config@, i) && 0 <= j
                        < self.config@[i]) ==> -6 * FX_ONE <= #[trigger] weight_at(ws@, i, rr, j)
                        <= 6 * FX_ONE,
            decreases k - 1 - li,
        {
            let rows = self.weights[li].len();
            let cols = self.config[li];
            let mut m: Vec<Vec<i64>> = Vec::new();
            let mut r: usize = 0;
            while r < rows
                invariant
                    *self == *old(self),
                    self.wf(),
                    k == self.config@.len(),
                    li < k - 1,
                    rows == spec_rows(self.config@, li as int),
                    cols == self.config@[li as int],
                    r <= rows,
                    m@.len() == r,
                    forall|t: int|
                        0 <= t < r ==> (#[trigger] m@[t])@.len() == cols && forall|j: int|
                            0 <= j < cols ==> -FX_LIM <= #[trigger] m@[t]@[j] <= FX_LIM,
                    forall|t: int, j: int|
                        (0 <= t < r && 0 <= j < cols) ==> #[trigger] m@[t]@[j] == weight_at(
                            self.weights@,
                            li as int,
                            t,
                            j,
                        ) || (self.mut_rate > 0 && -6 * FX_ONE <= m@[t]@[j] <= 6 * FX_ONE),
                    self.mut_rate == FX_ONE ==> forall|t: int, j: int|
                        (0 <= t < r && 0 <= j < cols) ==> -6 * FX_ONE <= #[trigger] m@[t]@[j] <= 6
                            * FX_ONE,
                decreases rows - r,
            {
                let mut row: Vec<i64> = Vec::new();
                let mut j: usize = 0;
                while j < cols
                    invariant
                        *self == *old(self),
                        self.wf(),
                        k == self.config@.len(),
                        li < k - 1,
                        r < rows,
                        rows == spec_rows(self.config@, li as int),
                        cols == self.config@[li as int],
                        j <= cols,
                        row@.len() == j,
                        forall|t: int| 0 <= t < j ==> -FX_LIM <= #[trigger] row@[t] <= FX_LIM,
                        forall|t: int|
                            0 <= t < j ==> #[trigger] row@[t] == weight_at(
                                self.weights@,
                                li as int,
                                r as int,
                                t,
                            ) || (self.mut_rate > 0 && -6 * FX_ONE <= row@[t] <= 6 * FX_ONE),
                        self.mut_rate == FX_ONE ==> forall|t: int|
                            0 <= t < j ==> -6 * FX_ONE <= #[trigger] row@[t] <= 6 * FX_ONE,
                    decreases cols - j,
                {
                    let coin = rng.next_below(FX_ONE as u64) as i64;
                    let w = if coin < self.mut_rate {
                        rng.next_standard_normal()
                    } else {
                        self.weights[li][r][j]
                    };
                    row.push(w);
                    j = j + 1;
                }
                m.push(row);
                r = r + 1;
            }
            let ghost prev = ws@;
            ws.push(m);
            proof {
                assert forall|i: int, rr: int, j: int|
                    0 <= i <= li && 0 <= rr < spec_rows(self.config@, i) && 0 <= j
                        < self.config@[i] implies (weight_at(ws@, i, rr, j) == weight_at(
                        self.weights@,
                        i,
                        rr,
                        j,
                    ) || (self.mut_rate > 0 && -6 * FX_ONE <= weight_at(ws@, i, rr, j) <= 6
                        * FX_ONE)) by {
                    if i < li {
                        assert(ws@[i] == prev[i]);
                        assert(weight_at(prev, i, rr, j) == weight_at(self.weights@, i, rr, j)
                            || (self.mut_rate > 0 && -6 * FX_ONE <= weight_at(prev, i, rr, j) <= 6
                            * FX_ONE));
                    } else {
                        assert(ws@[i] == m);
                        assert(m@[rr]@[j] == weight_at(self.weights@, i, rr, j) || (self.mut_rate
                            > 0 && -6 * FX_ONE <= m@[rr]@[j] <= 6 * FX_ONE));
                    }
                }
                if self.mut_rate == FX_ONE {
                    assert forall|i: int, rr: int, j: int|
                        0 <= i <= li && 0 <= rr < spec_rows(self.config@, i) && 0 <= j
                            < self.config@[i] implies -6 * FX_ONE <= #[trigger] weight_at(
                        ws@,
                        i,
                        rr,
                        j,
                    ) <= 6 * FX_ONE by {
                        if i < li {
                            assert(ws@[i] == prev[i]);
                            assert(-6 * FX_ONE <= weight_at(prev, i, rr, j) <= 6 * FX_ONE);
                        } else {
                            assert(ws@[i] == m);
                            assert(-6 * FX_ONE <= m@[rr]@[j] <= 6 * FX_ONE);
                        }
                    }
                }
            }
            li = li + 1;
        }
        self.weights = ws;
    }

    /// An element-wise copy, used to carry an elite network forward
    /// unmodified into the next generation.
    pub fn duplicate(&self) -> (r: NN)
        requires
            self.wf(),
        ensures
            r.wf(),
            nn_equiv(r, *self),
    {
        let k = self.config.len();
        let mut ws: Vec<Vec<Vec<i64>>> = Vec::new();
        let mut li: usize = 0;
        while li < k - 1
            invariant
                self.wf(),
                k == self.config@.len(),
                li <= k - 1,
                ws@.len() == li,
                forall|t: int|
                    0 <= t < li ==> mat_wf(
                        #[trigger] ws@[t],
                        spec_rows(self.config@, t),
                        self.config@[t] as int,
                    ),
                forall|t: int| 0 <= t < li ==> mat_int(#[trigger] ws@[t]) == mat_int(self.weights@[t]),
            decreases k - 1 - li,
        {
            let rows = self.weights[li].len();
            let cols = self.config[li];
            let mut m: Vec<Vec<i64>> = Vec::new();
            let mut r: usize = 0;
            while r < rows
                invariant
                    self.wf(),
                    k == self.config@.len(),
                    li < k - 1,
                    rows == spec_rows(self.config@, li as int),
                    cols == self.config@[li as int],
                    r <= rows,
                    m@.len() == r,
                    forall|t: int|
                        0 <= t < r ==> (#[trigger] m@[t])@.len() == cols && forall|j: int|
                            0 <= j < cols ==> -FX_LIM <= #[trigger] m@[t]@[j] <= FX_LIM,
                    forall|t: int|
                        0 <= t < r ==> seq_int((#[trigger] m@[t])@) == mat_int(
                            self.weights@[li as int],
                        )[t],
                decreases rows - r,
            {
                let mut row: Vec<i64> = Vec::new();
                let mut j: usize = 0;
                while j < cols
                    invariant
                        self.wf(),
                        k == self.config@.len(),
                        li < k - 1,
                        r < rows,
                        rows == spec_rows(self.config@, li as int),
                        cols == self.config@[li as int],
                        j <= cols,
                        row@.len() == j,
                        forall|t: int| 0 <= t < j ==> -FX_LIM <= #[trigger] row@[t] <= FX_LIM,
                        forall|t: int|
                            0 <= t < j ==> #[trigger] row@[t] == self.weights@[li as int]@[r as int]@[t],
                    decreases cols - j,
                {
                    row.push(self.weights[li][r][j]);
                    j = j + 1;
                }
                proof {
                    assert(seq_int(row@) =~= mat_int(self.weights@[li as int])[r as int]);
                }
                m.push(row);
                r = r + 1;
            }
            proof {
                assert(mat_int(m) =~= mat_int(self.weights@[li as int]));
            }
            ws.push(m);
            li = li + 1;
        }
        proof {
            assert(weights_int(ws@) =~= weights_int(self.weights@));
        }
        NN {
            config: copy_config(&self.config),
            weights: ws,
            activ_func: self.activ_func,
            mut_rate: self.mut_rate,
        }
    }
}

} // verus!
