//! Snapshot serialization with an exact, proved round trip.
//!
//! A network is flattened into a sequence of signed values — topology length,
//! topology entries, activation tag, mutation rate, then every weight in
//! row-major order — and each value is laid down as nine bytes: a sign byte
//! (zero or one) followed by the magnitude in eight little-endian bytes.
//! Decoding validates every structural constraint the engine relies on, so
//! `import` returns a well-formed network or fails; it never panics and
//! never yields a partially decoded result.

use vstd::arithmetic::div_mod::{
    lemma_fundamental_div_mod, lemma_mod_sub_multiples_vanish, lemma_multiply_divide_lt,
};
use vstd::prelude::*;

use crate::EngineError;
use crate::fx::{FX_LIM, FX_ONE, abs_int};
use crate::nn::{
    ActivationFunc, MAX_LAYERS, MAX_WIDTH, NN, mat_int, mat_wf, seq_int, spec_rows,
    weights_int,
};

verus! {

/// `256^n`.
pub open spec fn pow256(n: nat) -> int
    decreases n,
{
    if n == 0 {
        1
    } else {
        256 * pow256((n - 1) as nat)
    }
}

/// A nonnegative value as `n` little-endian bytes.
pub open spec fn enc_le(x: int, n: nat) -> Seq<u8>
    decreases n,
{
    if n == 0 {
        Seq::empty()
    } else {
        seq![(x % 256) as u8] + enc_le(x / 256, (n - 1) as nat)
    }
}

/// The value of a little-endian byte sequence.
pub open spec fn dec_le(s: Seq<u8>) -> int
    decreases s.len(),
{
    if s.len() == 0 {
        0
    } else {
        s[0] + 256 * dec_le(s.drop_first())
    }
}

/// One signed value as a nine-byte group: sign byte, then the magnitude.
pub open spec fn enc_i64(v: int) -> Seq<u8> {
    seq![if v < 0 {
        1u8
    } else {
        0u8
    }] + enc_le(abs_int(v), 8)
}

/// Decode one nine-byte group; the sign byte must be zero or one, the
/// magnitude must fit a signed 64-bit value, and a negative zero is refused.
pub open spec fn dec_group(g: Seq<u8>) -> Option<int>
    recommends
        g.len() == 9,
{
    let sign = g[0];
    let mag = dec_le(g.subrange(1, 9));
    if sign == 0 && mag <= 0x7fff_ffff_ffff_ffff {
        Some(mag)
    } else if sign == 1 && 0 < mag <= 0x7fff_ffff_ffff_ffff {
        Some(-mag)
    } else {
        None
    }
}

/// A sequence of signed values as consecutive nine-byte groups.
pub open spec fn enc_vals(vs: Seq<int>) -> Seq<u8>
    decreases vs.len(),
{
    if vs.len() == 0 {
        Seq::empty()
    } else {
        enc_i64(vs[0]) + enc_vals(vs.drop_first())
    }
}

/// Decode a whole byte string into signed values; the length must be a
/// multiple of nine and every group must decode.
pub open spec fn dec_vals(s: Seq<u8>) -> Option<Seq<int>>
    decreases s.len(),
{
    if s.len() == 0 {
        Some(Seq::empty())
    } else if s.len() < 9 {
        None
    } else {
        match dec_group(s.subrange(0, 9)) {
            None => None,
            Some(v) => match dec_vals(s.skip(9)) {
                None => None,
                Some(vs) => Some(seq![v] + vs),
            },
        }
    }
}

proof fn lemma_enc_le_len(x: int, n: nat)
    ensures
        enc_le(x, n).len() == n,
    decreases n,
{
    if n > 0 {
        lemma_enc_le_len(x / 256, (n - 1) as nat);
    }
}

proof fn lemma_dec_le_bound(s: Seq<u8>)
    ensures
        0 <= dec_le(s) < pow256(s.len()),
    decreases s.len(),
{
    if s.len() > 0 {
        lemma_dec_le_bound(s.drop_first());
    }
}

proof fn lemma_dec_enc_le(x: int, n: nat)
    requires
        0 <= x < pow256(n),
    ensures
        dec_le(enc_le(x, n)) == x,
    decreases n,
{
    if n > 0 {
        lemma_fundamental_div_mod(x, 256);
        assert(x / 256 < pow256((n - 1) as nat)) by {
            lemma_multiply_divide_lt(x, 256, pow256((n - 1) as nat));
        }
        lemma_dec_enc_le(x / 256, (n - 1) as nat);
        let e = enc_le(x, n);
        assert(e.drop_first() =~= enc_le(x / 256, (n - 1) as nat));
        assert(e[0] == (x % 256) as u8);
    }
}

proof fn lemma_dec_enc_group(v: int)
    requires
        -0x7fff_ffff_ffff_ffff <= v <= 0x7fff_ffff_ffff_ffff,
    ensures
        enc_i64(v).len() == 9,
        dec_group(enc_i64(v)) == Some(v),
{
    let g = enc_i64(v);
    lemma_enc_le_len(abs_int(v), 8);
    assert(pow256(8) == 0x1_0000_0000_0000_0000) by {
        assert(pow256(0) == 1);
        assert(pow256(1) == 256);
        assert(pow256(2) == 0x1_0000);
        assert(pow256(3) == 0x100_0000);
        assert(pow256(4) == 0x1_0000_0000);
        assert(pow256(5) == 0x100_0000_0000);
        assert(pow256(6) == 0x1_0000_0000_0000);
        assert(pow256(7) == 0x100_0000_0000_0000);
    }
    lemma_dec_enc_le(abs_int(v), 8);
    assert(g.subrange(1, 9) =~= enc_le(abs_int(v), 8));
}

/// Topology entries as mathematical integers.
pub open spec fn config_int(c: Seq<usize>) -> Seq<int> {
    c.map(|t: int, x: usize| x as int)
}

/// Numeric tag of an activation function in a snapshot.
pub open spec fn tag_of(a: ActivationFunc) -> int {
    match a {
        ActivationFunc::ReLU => 0,
        ActivationFunc::Sigmoid => 1,
        ActivationFunc::Tanh => 2,
    }
}

/// Row-major flattening of one matrix.
pub open spec fn flat_mat(m: Seq<Seq<int>>) -> Seq<int>
    decreases m.len(),
{
    if m.len() == 0 {
        Seq::empty()
    } else {
        m[0] + flat_mat(m.drop_first())
    }
}

/// Flattening of all weight matrices in order.
pub open spec fn flat_ws(ws: Seq<Seq<Seq<int>>>) -> Seq<int>
    decreases ws.len(),
{
    if ws.len() == 0 {
        Seq::empty()
    } else {
        flat_mat(ws[0]) + flat_ws(ws.drop_first())
    }
}

/// The flat value sequence of a network: topology length, topology entries,
/// activation tag, mutation rate, then every weight in row-major order.
pub open spec fn snapshot_vals(n: NN) -> Seq<int> {
    seq![n.config@.len() as int] + config_int(n.config@) + seq![
        tag_of(n.activ_func),
        n.mut_rate as int,
    ] + flat_ws(weights_int(n.weights@))
}

/// The exact byte form `export` produces.
pub open spec fn spec_export(n: NN) -> Seq<u8> {
    enc_vals(snapshot_vals(n))
}

/// Row count of weight matrix `i` under an integer topology.
pub open spec fn rows_at(c: Seq<int>, i: int) -> int {
    if i + 2 == c.len() {
        c[i + 1]
    } else {
        c[i + 1] - 1
    }
}

/// Number of flat weight values from layer `i` on.
pub open spec fn wsize(c: Seq<int>, i: int) -> int
    decreases c.len() - i,
{
    if !(0 <= i < c.len() - 1) {
        0
    } else {
        rows_at(c, i) * c[i] + wsize(c, i + 1)
    }
}

/// Validity of a decoded topology: the same bounds `NN::wf` demands.
pub open spec fn config_ok(c: Seq<int>) -> bool {
    &&& 2 <= c.len() <= MAX_LAYERS
    &&& forall|t: int| 0 <= t < c.len() ==> 1 <= #[trigger] c[t] <= MAX_WIDTH
    &&& forall|t: int| 0 <= t < c.len() - 1 ==> #[trigger] c[t] >= 2
}

/// Cut one matrix out of a flat segment.
pub open spec fn reshape_mat(vs: Seq<int>, rows: int, cols: int) -> Seq<Seq<int>> {
    Seq::new(rows as nat, |r: int| vs.subrange(r * cols, r * cols + cols))
}

/// Cut all weight matrices from layer `i` on out of a flat segment.
pub open spec fn reshape_ws(vs: Seq<int>, c: Seq<int>, i: int) -> Seq<Seq<Seq<int>>>
    decreases c.len() - i,
{
    if !(0 <= i < c.len() - 1) {
        Seq::empty()
    } else {
        seq![reshape_mat(vs.take(rows_at(c, i) * c[i]), rows_at(c, i), c[i])] + reshape_ws(
            vs.skip(rows_at(c, i) * c[i]),
            c,
            i + 1,
        )
    }
}

/// One element of a nested weight sequence.
pub open spec fn ws_elem(ws: Seq<Seq<Seq<int>>>, i: int, r: int, j: int) -> int {
    ws[i][r][j]
}

/// Every weight within the saturation band.
pub open spec fn ws_in_band(ws: Seq<Seq<Seq<int>>>) -> bool {
    forall|i: int, r: int, j: int|
        0 <= i < ws.len() && 0 <= r < ws[i].len() && 0 <= j < ws[i][r].len() ==> -FX_LIM
            <= #[trigger] ws_elem(ws, i, r, j) <= FX_LIM
}

/// Structural decode of a flat value sequence: the topology, activation tag,
/// mutation rate and weights, or nothing if any engine constraint fails.
pub open spec fn vals_to_snapshot(vs: Seq<int>) -> Option<(Seq<int>, int, int, Seq<Seq<Seq<int>>>)> {
    if vs.len() < 1 {
        None
    } else {
        let k = vs[0];
        if !(2 <= k <= MAX_LAYERS) {
            None
        } else if vs.len() < k + 3 {
            None
        } else {
            let c = vs.subrange(1, k + 1);
            if !config_ok(c) {
                None
            } else {
                let tag = vs[k + 1];
                let rate = vs[k + 2];
                if !(0 <= tag <= 2) {
                    None
                } else if !(0 <= rate <= FX_ONE) {
                    None
                } else if vs.len() != k + 3 + wsize(c, 0) {
                    None
                } else {
                    let ws = reshape_ws(vs.skip(k + 3), c, 0);
                    if !ws_in_band(ws) {
                        None
                    } else {
                        Some((c, tag, rate, ws))
                    }
                }
            }
        }
    }
}

/// Full decode: bytes to values, then values to a snapshot.
pub open spec fn spec_parse(data: Seq<u8>) -> Option<(Seq<int>, int, int, Seq<Seq<Seq<int>>>)> {
    match dec_vals(data) {
        None => None,
        Some(vs) => vals_to_snapshot(vs),
    }
}

proof fn lemma_dec_enc_vals(vs: Seq<int>)
    requires
        forall|t: int|
            0 <= t < vs.len() ==> -0x7fff_ffff_ffff_ffff <= #[trigger] vs[t]
                <= 0x7fff_ffff_ffff_ffff,
    ensures
        enc_vals(vs).len() == 9 * vs.len(),
        dec_vals(enc_vals(vs)) == Some(vs),
    decreases vs.len(),
{
    if vs.len() > 0 {
        let s = enc_vals(vs);
        lemma_dec_enc_group(vs[0]);
        lemma_dec_enc_vals(vs.drop_first());
        assert(s.subrange(0, 9) =~= enc_i64(vs[0]));
        assert(s.skip(9) =~= enc_vals(vs.drop_first()));
        assert(seq![vs[0]] + vs.drop_first() =~= vs);
    }
}

/// Shape agreement between a nested weight sequence and the topology,
/// starting at layer `i`.
pub open spec fn ws_shape(ws: Seq<Seq<Seq<int>>>, c: Seq<int>, i: int) -> bool {
    &&& ws.len() == c.len() - 1 - i
    &&& forall|t: int| 0 <= t < ws.len() ==> (#[trigger] ws[t]).len() == rows_at(c, i + t)
    &&& forall|t: int, r: int|
        0 <= t < ws.len() && 0 <= r < ws[t].len() ==> (#[trigger] ws[t][r]).len() == c[i + t]
}

proof fn lemma_flat_mat_len(m: Seq<Seq<int>>, cols: int)
    requires
        cols >= 0,
        forall|r: int| 0 <= r < m.len() ==> (#[trigger] m[r]).len() == cols,
    ensures
        flat_mat(m).len() == m.len() * cols,
    decreases m.len(),
{
    if m.len() == 0 {
    } else {
        lemma_flat_mat_len(m.drop_first(), cols);
        assert((m.len() as int) * cols == cols + (m.len() - 1) * cols) by (nonlinear_arith);
    }
}

proof fn lemma_flat_mat_segment(m: Seq<Seq<int>>, cols: int, r: int)
    requires
        cols >= 0,
        forall|t: int| 0 <= t < m.len() ==> (#[trigger] m[t]).len() == cols,
        0 <= r < m.len(),
    ensures
        r * cols >= 0,
        r * cols + cols <= flat_mat(m).len(),
        flat_mat(m).subrange(r * cols, r * cols + cols) == m[r],
    decreases r,
{
    lemma_flat_mat_len(m, cols);
    assert(0 <= r * cols && r * cols + cols <= m.len() * cols) by (nonlinear_arith)
        requires
            cols >= 0,
            0 <= r < m.len(),
    ;
    if r == 0 {
        assert(r * cols == 0) by (nonlinear_arith)
            requires
                r == 0,
        ;
        assert(flat_mat(m).subrange(0, cols) =~= m[0]);
    } else {
        let rest = m.drop_first();
        assert forall|t: int| 0 <= t < rest.len() implies (#[trigger] rest[t]).len() == cols by {
            assert(rest[t] == m[t + 1]);
        }
        lemma_flat_mat_len(rest, cols);
        lemma_flat_mat_segment(rest, cols, r - 1);
        assert((r - 1) * cols == r * cols - cols) by (nonlinear_arith);
        assert(flat_mat(m).subrange(r * cols, r * cols + cols) =~= flat_mat(rest).subrange(
            (r - 1) * cols,
            (r - 1) * cols + cols,
        ));
        assert(rest[r - 1] == m[r]);
    }
}

proof fn lemma_reshape_flat_mat(m: Seq<Seq<int>>, rows: int, cols: int)
    requires
        rows >= 0,
        cols >= 0,
        m.len() == rows,
        forall|t: int| 0 <= t < m.len() ==> (#[trigger] m[t]).len() == cols,
    ensures
        reshape_mat(flat_mat(m), rows, cols) == m,
{
    let rm = reshape_mat(flat_mat(m), rows, cols);
    assert forall|r: int| 0 <= r < rows implies rm[r] == m[r] by {
        lemma_flat_mat_segment(m, cols, r);
    }
    assert(rm =~= m);
}

proof fn lemma_flat_ws_len(ws: Seq<Seq<Seq<int>>>, c: Seq<int>, i: int)
    requires
        0 <= i <= c.len() - 1,
        forall|t: int| 0 <= t < c.len() ==> #[trigger] c[t] >= 1,
        ws_shape(ws, c, i),
    ensures
        flat_ws(ws).len() == wsize(c, i),
    decreases ws.len(),
{
    if ws.len() == 0 {
    } else {
        lemma_flat_mat_len(ws[0], c[i]);
        assert(ws_shape(ws.drop_first(), c, i + 1));
        lemma_flat_ws_len(ws.drop_first(), c, i + 1);
    }
}

proof fn lemma_reshape_flat_ws(ws: Seq<Seq<Seq<int>>>, c: Seq<int>, i: int)
    requires
        0 <= i <= c.len() - 1,
        forall|t: int| 0 <= t < c.len() ==> #[trigger] c[t] >= 1,
        ws_shape(ws, c, i),
    ensures
        reshape_ws(flat_ws(ws), c, i) == ws,
    decreases ws.len(),
{
    if ws.len() == 0 {
        assert(reshape_ws(flat_ws(ws), c, i) =~= ws);
    } else {
        let vs = flat_ws(ws);
        let rows = rows_at(c, i);
        let cols = c[i];
        let sz = rows * cols;
        lemma_flat_mat_len(ws[0], cols);
        assert(ws_shape(ws.drop_first(), c, i + 1));
        lemma_flat_ws_len(ws.drop_first(), c, i + 1);
        assert(vs.take(sz) =~= flat_mat(ws[0]));
        assert(vs.skip(sz) =~= flat_ws(ws.drop_first()));
        lemma_reshape_flat_mat(ws[0], rows, cols);
        lemma_reshape_flat_ws(ws.drop_first(), c, i + 1);
        assert(reshape_ws(vs, c, i) =~= ws);
    }
}

proof fn lemma_flat_mat_band(m: Seq<Seq<int>>, lo: int, hi: int)
    requires
        forall|r: int, j: int|
            0 <= r < m.len() && 0 <= j < m[r].len() ==> lo <= #[trigger] m[r][j] <= hi,
    ensures
        forall|t: int| 0 <= t < flat_mat(m).len() ==> lo <= #[trigger] flat_mat(m)[t] <= hi,
    decreases m.len(),
{
    if m.len() > 0 {
        assert forall|r: int, j: int|
            0 <= r < m.drop_first().len() && 0 <= j < m.drop_first()[r].len() implies lo
            <= #[trigger] m.drop_first()[r][j] <= hi by {
            assert(m.drop_first()[r] == m[r + 1]);
        }
        lemma_flat_mat_band(m.drop_first(), lo, hi);
        assert forall|t: int| 0 <= t < flat_mat(m).len() implies lo <= #[trigger] flat_mat(m)[t]
            <= hi by {
            if t < m[0].len() {
                assert(flat_mat(m)[t] == m[0][t]);
            } else {
                assert(flat_mat(m)[t] == flat_mat(m.drop_first())[t - m[0].len()]);
            }
        }
    }
}

proof fn lemma_flat_ws_band(ws: Seq<Seq<Seq<int>>>, lo: int, hi: int)
    requires
        forall|i: int, r: int, j: int|
            0 <= i < ws.len() && 0 <= r < ws[i].len() && 0 <= j < ws[i][r].len() ==> lo
                <= #[trigger] ws_elem(ws, i, r, j) <= hi,
    ensures
        forall|t: int| 0 <= t < flat_ws(ws).len() ==> lo <= #[trigger] flat_ws(ws)[t] <= hi,
    decreases ws.len(),
{
    if ws.len() > 0 {
        assert forall|r: int, j: int|
            0 <= r < ws[0].len() && 0 <= j < ws[0][r].len() implies lo <= #[trigger] ws[0][r][j]
            <= hi by {
            assert(ws_elem(ws, 0, r, j) == ws[0][r][j]);
        }
        lemma_flat_mat_band(ws[0], lo, hi);
        assert forall|i: int, r: int, j: int|
            0 <= i < ws.drop_first().len() && 0 <= r < ws.drop_first()[i].len() && 0 <= j
                < ws.drop_first()[i][r].len() implies lo <= #[trigger] ws_elem(
            ws.drop_first(),
            i,
            r,
            j,
        ) <= hi by {
            assert(ws.drop_first()[i] == ws[i + 1]);
            assert(ws_elem(ws, i + 1, r, j) == ws[i + 1][r][j]);
        }
        lemma_flat_ws_band(ws.drop_first(), lo, hi);
        assert forall|t: int| 0 <= t < flat_ws(ws).len() implies lo <= #[trigger] flat_ws(ws)[t]
            <= hi by {
            if t < flat_mat(ws[0]).len() {
                assert(flat_ws(ws)[t] == flat_mat(ws[0])[t]);
            } else {
                assert(flat_ws(ws)[t] == flat_ws(ws.drop_first())[t - flat_mat(ws[0]).len()]);
            }
        }
    }
}

/// The weight block of a well-formed network has the shapes its topology
/// demands, and every weight lies in the saturation band.
proof fn lemma_wf_ws_facts(n: NN)
    requires
        n.wf(),
    ensures
        ws_shape(weights_int(n.weights@), config_int(n.config@), 0),
        ws_in_band(weights_int(n.weights@)),
{
    let ws = weights_int(n.weights@);
    let c = config_int(n.config@);
    assert forall|t: int| 0 <= t < ws.len() implies (#[trigger] ws[t]).len() == rows_at(c, t) by {
        assert(mat_wf(n.weights@[t], spec_rows(n.config@, t), n.config@[t] as int));
    }
    assert forall|t: int, r: int|
        0 <= t < ws.len() && 0 <= r < ws[t].len() implies (#[trigger] ws[t][r]).len() == c[t] by {
        assert(mat_wf(n.weights@[t], spec_rows(n.config@, t), n.config@[t] as int));
        assert(ws[t][r] == seq_int(n.weights@[t]@[r]@));
    }
    assert forall|i: int, r: int, j: int|
        0 <= i < ws.len() && 0 <= r < ws[i].len() && 0 <= j < ws[i][r].len() implies -FX_LIM
        <= #[trigger] ws_elem(ws, i, r, j) <= FX_LIM by {
        assert(mat_wf(n.weights@[i], spec_rows(n.config@, i), n.config@[i] as int));
        assert(ws[i][r] == seq_int(n.weights@[i]@[r]@));
        assert(ws_elem(ws, i, r, j) == n.weights@[i]@[r]@[j] as int);
    }
}

proof fn lemma_enc_vals_snoc(vs: Seq<int>, v: int)
    ensures
        enc_vals(vs.push(v)) == enc_vals(vs) + enc_i64(v),
    decreases vs.len(),
{
    if vs.len() == 0 {
        assert(vs.push(v).drop_first() =~= Seq::<int>::empty());
        assert(enc_i64(v) + enc_vals(Seq::<int>::empty()) =~= enc_i64(v));
        assert(enc_vals(vs) + enc_i64(v) =~= enc_i64(v));
    } else {
        assert(vs.push(v).drop_first() =~= vs.drop_first().push(v));
        lemma_enc_vals_snoc(vs.drop_first(), v);
        assert(enc_i64(vs[0]) + (enc_vals(vs.drop_first()) + enc_i64(v)) =~= (enc_i64(vs[0])
            + enc_vals(vs.drop_first())) + enc_i64(v));
    }
}

/// Append one signed value as its nine-byte group.
fn push_val(out: &mut Vec<u8>, v: i64)
    requires
        v >= -0x7fff_ffff_ffff_ffff,
    ensures
        final(out)@ == old(out)@ + enc_i64(v as int),
{
    let sign: u8 = if v < 0 {
        1
    } else {
        0
    };
    out.push(sign);
    let ghost base = out@;
    let ghost mag = abs_int(v as int);
    let mut m: u64 = if v < 0 {
        (-(v as i128)) as u64
    } else {
        v as u64
    };
    let ghost mut d: Seq<u8> = Seq::empty();
    proof {
        assert(d + enc_le(m as int, 8) =~= enc_le(mag, 8));
    }
    let mut i: usize = 0;
    while i < 8
        invariant
            i <= 8,
            out@ == base + d,
            d + enc_le(m as int, (8 - i) as nat) == enc_le(mag, 8),
        decreases 8 - i,
    {
        let b: u8 = (m % 256) as u8;
        proof {
            assert(enc_le(m as int, (8 - i) as nat) == seq![b] + enc_le(
                m as int / 256,
                (8 - i - 1) as nat,
            ));
            assert((d + seq![b]) + enc_le(m as int / 256, (8 - i - 1) as nat) =~= d + (seq![b]
                + enc_le(m as int / 256, (8 - i - 1) as nat)));
        }
        out.push(b);
        proof {
            d = d + seq![b];
            assert(out@ =~= base + d);
        }
        m = m / 256;
        i = i + 1;
    }
    proof {
        assert(d + enc_le(m as int, 0) =~= d);
        assert(base + d =~= old(out)@ + enc_i64(v as int));
    }
}

impl NN {
    /// Serialize the network to its snapshot byte form: topology, activation
    /// tag, mutation rate and every weight, each as a nine-byte group.
    pub fn export(&self) -> (r: Vec<u8>)
        requires
            self.wf(),
        ensures
            r@ == spec_export(*self),
    {
        let ghost ws = weights_int(self.weights@);
        let mut out: Vec<u8> = Vec::new();
        let ghost mut vals: Seq<int> = Seq::empty();
        let k = self.config.len();
        proof {
            assert(out@ =~= enc_vals(vals));
            lemma_enc_vals_snoc(vals, k as int);
        }
        push_val(&mut out, k as i64);
        proof {
            vals = vals.push(k as int);
        }
        let mut t: usize = 0;
        while t < k
            invariant
                self.wf(),
                t <= k,
                k == self.config@.len(),
                out@ == enc_vals(vals),
                vals =~= seq![k as int] + config_int(self.config@).take(t as int),
            decreases k - t,
        {
            let e = self.config[t];
            proof {
                lemma_enc_vals_snoc(vals, e as int);
            }
            push_val(&mut out, e as i64);
            proof {
                vals = vals.push(e as int);
                assert(vals =~= seq![k as int] + config_int(self.config@).take(t + 1));
            }
            t = t + 1;
        }
        proof {
            assert(config_int(self.config@).take(k as int) =~= config_int(self.config@));
            lemma_enc_vals_snoc(vals, tag_of(self.activ_func));
        }
        let tag: i64 = match self.activ_func {
            ActivationFunc::ReLU => 0,
            ActivationFunc::Sigmoid => 1,
            ActivationFunc::Tanh => 2,
        };
        push_val(&mut out, tag);
        proof {
            vals = vals.push(tag as int);
            lemma_enc_vals_snoc(vals, self.mut_rate as int);
        }
        push_val(&mut out, self.mut_rate);
        proof {
            vals = vals.push(self.mut_rate as int);
        }
        let ghost head = seq![k as int] + config_int(self.config@) + seq![
            tag_of(self.activ_func),
            self.mut_rate as int,
        ];
        proof {
            assert(vals =~= head);
            assert(ws.skip(0) =~= ws);
        }
        let mut li: usize = 0;
        while li < k - 1
            invariant
                self.wf(),
                li <= k - 1,
                k == self.config@.len(),
                ws == weights_int(self.weights@),
                out@ == enc_vals(vals),
                head + flat_ws(ws) =~= vals + flat_ws(ws.skip(li as int)),
            decreases k - 1 - li,
        {
            let rows = self.weights[li].len();
            let cols_g = self.config[li];
            let ghost mrows = ws[li as int];
            proof {
                assert(mat_wf(self.weights@[li as int], spec_rows(self.config@, li as int),
                    self.config@[li as int] as int));
                assert(ws.skip(li as int)[0] == mrows);
                assert(ws.skip(li as int).drop_first() =~= ws.skip(li as int + 1));
                assert(flat_ws(ws.skip(li as int)) == flat_mat(mrows) + flat_ws(
                    ws.skip(li as int + 1),
                ));
                assert(mrows.skip(0) =~= mrows);
                assert(vals + (flat_mat(mrows) + flat_ws(ws.skip(li as int + 1))) =~= vals
                    + flat_mat(mrows) + flat_ws(ws.skip(li as int + 1)));
            }
            let mut r: usize = 0;
            while r < rows
                invariant
                    self.wf(),
                    li < k - 1,
                    k == self.config@.len(),
                    ws == weights_int(self.weights@),
                    mrows == ws[li as int],
                    rows == mrows.len(),
                    rows == self.weights@[li as int]@.len(),
                    out@ == enc_vals(vals),
                    r <= rows,
                    head + flat_ws(ws) =~= vals + flat_mat(mrows.skip(r as int)) + flat_ws(
                        ws.skip(li as int + 1),
                    ),
                decreases rows - r,
            {
                let cols = self.weights[li][r].len();
                let ghost row = mrows[r as int];
                proof {
                    assert(mat_wf(self.weights@[li as int], spec_rows(self.config@, li as int),
                        self.config@[li as int] as int));
                    assert(row == seq_int(self.weights@[li as int]@[r as int]@));
                    assert(mrows.skip(r as int)[0] == row);
                    assert(mrows.skip(r as int).drop_first() =~= mrows.skip(r as int + 1));
                    assert(flat_mat(mrows.skip(r as int)) == row + flat_mat(
                        mrows.skip(r as int + 1),
                    ));
                    assert(row.skip(0) =~= row);
                    assert(vals + (row + flat_mat(mrows.skip(r as int + 1))) =~= vals + row
                        + flat_mat(mrows.skip(r as int + 1)));
                    assert(vals + row + flat_mat(mrows.skip(r as int + 1)) + flat_ws(
                        ws.skip(li as int + 1),
                    ) =~= vals + (row + flat_mat(mrows.skip(r as int + 1))) + flat_ws(
                        ws.skip(li as int + 1),
                    ));
                }
                let mut j: usize = 0;
                while j < cols
                    invariant
                        self.wf(),
                        li < k - 1,
                        r < rows,
                        k == self.config@.len(),
                        ws == weights_int(self.weights@),
                        mrows == ws[li as int],
                        rows == self.weights@[li as int]@.len(),
                        row == seq_int(self.weights@[li as int]@[r as int]@),
                        cols == row.len(),
                        cols == self.weights@[li as int]@[r as int]@.len(),
                        out@ == enc_vals(vals),
                        j <= cols,
                        forall|x: int|
                            0 <= x < cols ==> -FX_LIM <= #[trigger] self.weights@[li as int]@[r as int]@[x] <= FX_LIM,
                        head + flat_ws(ws) =~= vals + row.skip(j as int) + flat_mat(
                            mrows.skip(r as int + 1),
                        ) + flat_ws(ws.skip(li as int + 1)),
                    decreases cols - j,
                {
                    let w = self.weights[li][r][j];
                    proof {
                        lemma_enc_vals_snoc(vals, w as int);
                        assert(row.skip(j as int) =~= seq![row[j as int]] + row.skip(j as int + 1));
                        assert(row[j as int] == w as int);
                    }
                    push_val(&mut out, w);
                    proof {
                        vals = vals.push(w as int);
                        assert(head + flat_ws(ws) =~= vals + row.skip(j as int + 1) + flat_mat(
                            mrows.skip(r as int + 1),
                        ) + flat_ws(ws.skip(li as int + 1)));
                    }
                    j = j + 1;
                }
                proof {
                    assert(row.skip(cols as int) =~= Seq::<int>::empty());
                    assert(head + flat_ws(ws) =~= vals + flat_mat(mrows.skip(r as int + 1))
                        + flat_ws(ws.skip(li as int + 1)));
                }
                r = r + 1;
            }
            proof {
                assert(mrows.skip(rows as int) =~= Seq::<Seq<int>>::empty());
                assert(head + flat_ws(ws) =~= vals + flat_ws(ws.skip(li as int + 1)));
            }
            li = li + 1;
        }
        proof {
            assert(ws.skip(k - 1) =~= Seq::<Seq<Seq<int>>>::empty());
            assert(vals =~= head + flat_ws(ws));
            assert(vals =~= snapshot_vals(*self));
        }
        out
    }
}

proof fn lemma_pow256_small()
    ensures
        pow256(0) == 1,
        pow256(1) == 256,
        pow256(2) == 0x1_0000,
        pow256(3) == 0x100_0000,
        pow256(4) == 0x1_0000_0000,
        pow256(5) == 0x100_0000_0000,
        pow256(6) == 0x1_0000_0000_0000,
        pow256(7) == 0x100_0000_0000_0000,
        pow256(8) == 0x1_0000_0000_0000_0000,
{
    assert(pow256(0) == 1);
    assert(pow256(1) == 256);
    assert(pow256(2) == 0x1_0000);
    assert(pow256(3) == 0x100_0000);
    assert(pow256(4) == 0x1_0000_0000);
    assert(pow256(5) == 0x100_0000_0000);
    assert(pow256(6) == 0x1_0000_0000_0000);
    assert(pow256(7) == 0x100_0000_0000_0000);
    assert(pow256(8) == 0x1_0000_0000_0000_0000);
}

proof fn lemma_dec_vals_mod9(s: Seq<u8>)
    requires
        s.len() % 9 != 0,
    ensures
        dec_vals(s) is None,
    decreases s.len(),
{
    if s.len() >= 9 {
        lemma_mod_sub_multiples_vanish(s.len() as int, 9);
        lemma_dec_vals_mod9(s.skip(9));
    }
}

/// Read the eight little-endian magnitude bytes at `pos`.
fn read_mag(data: &Vec<u8>, pos: usize) -> (m: u64)
    requires
        pos + 8 <= data@.len(),
    ensures
        m == dec_le(data@.subrange(pos as int, pos as int + 8)),
{
    let ghost seg = data@.subrange(pos as int, pos as int + 8);
    let dlen = data.len();
    let mut acc: u64 = 0;
    let mut i: usize = 8;
    proof {
        assert(seg.skip(8) =~= Seq::<u8>::empty());
    }
    while i > 0
        invariant
            i <= 8,
            pos + 8 <= dlen,
            dlen == data@.len(),
            seg == data@.subrange(pos as int, pos as int + 8),
            acc == dec_le(seg.skip(i as int)),
        decreases i,
    {
        i = i - 1;
        proof {
            lemma_pow256_small();
            lemma_dec_le_bound(seg.skip(i as int + 1));
            assert(seg.skip(i as int + 1).len() == 7 - i);
            assert(pow256((7 - i) as nat) <= 0x100_0000_0000_0000) by {
                if i == 0 {
                } else if i == 1 {
                } else if i == 2 {
                } else if i == 3 {
                } else if i == 4 {
                } else if i == 5 {
                } else if i == 6 {
                } else {
                }
            }
            assert(seg.skip(i as int)[0] == seg[i as int]);
            assert(seg[i as int] == data@[pos + i]);
            assert(seg.skip(i as int).drop_first() =~= seg.skip(i as int + 1));
        }
        acc = acc * 256 + (data[pos + i] as u64);
    }
    proof {
        assert(seg.skip(0) =~= seg);
    }
    acc
}

/// Decode a byte string into its flat value sequence, or nothing if any
/// nine-byte group is malformed.
fn decode_vals(data: &Vec<u8>) -> (r: Option<Vec<i64>>)
    ensures
        r matches Some(vals) ==> dec_vals(data@) == Some(seq_int(vals@)),
        r is None ==> dec_vals(data@) is None,
{
    let n = data.len();
    if n % 9 != 0 {
        proof {
            lemma_dec_vals_mod9(data@);
        }
        return None;
    }
    let count = n / 9;
    proof {
        assert(n == 9 * count) by (nonlinear_arith)
            requires
                n % 9 == 0,
                count == n / 9,
        ;
    }
    let mut vals: Vec<i64> = Vec::new();
    let mut g: usize = 0;
    proof {
        assert(data@.skip(0) =~= data@);
        assert(seq_int(vals@) =~= Seq::<int>::empty());
    }
    while g < count
        invariant
            g <= count,
            n == data@.len(),
            n == 9 * count,
            vals@.len() == g,
            dec_vals(data@.skip(9 * g as int)) matches Some(rest) ==> dec_vals(data@) == Some(
                seq_int(vals@) + rest,
            ),
            dec_vals(data@.skip(9 * g as int)) is None ==> dec_vals(data@) is None,
        decreases count - g,
    {
        proof {
            assert(9 * (g as int) + 9 <= 9 * (count as int)) by (nonlinear_arith)
                requires
                    g < count,
            ;
        }
        let pos = 9 * g;
        let ghost suffix = data@.skip(pos as int);
        let ghost grp = data@.subrange(pos as int, pos as int + 9);
        proof {
            assert(suffix.len() >= 9);
            assert(suffix.subrange(0, 9) =~= grp);
            assert(suffix.skip(9) =~= data@.skip(pos as int + 9));
            assert(grp.subrange(1, 9) =~= data@.subrange(pos as int + 1, pos as int + 9));
            assert(grp[0] == data@[pos as int]);
        }
        let sign = data[pos];
        let mag = read_mag(data, pos + 1);
        let v: i64;
        if sign == 0 && mag <= 0x7fff_ffff_ffff_ffff {
            v = mag as i64;
        } else if sign == 1 && 0 < mag && mag <= 0x7fff_ffff_ffff_ffff {
            v = -(mag as i64);
        } else {
            proof {
                assert(dec_group(grp) is None);
                assert(dec_vals(suffix) is None);
            }
            return None;
        }
        proof {
            assert(dec_group(grp) == Some(v as int));
        }
        let ghost old_vals = vals@;
        vals.push(v);
        g = g + 1;
        proof {
            assert(seq_int(vals@) =~= seq_int(old_vals) + seq![v as int]);
            if dec_vals(data@.skip(9 * g as int)) is Some {
                let rest2 = dec_vals(data@.skip(9 * g as int)).unwrap();
                assert(dec_vals(suffix) == Some(seq![v as int] + rest2));
                assert(seq_int(old_vals) + (seq![v as int] + rest2) =~= seq_int(vals@) + rest2);
            } else {
                assert(dec_vals(suffix) is None);
            }
        }
    }
    proof {
        assert(data@.skip(9 * count as int) =~= Seq::<u8>::empty());
        assert(dec_vals(data@.skip(9 * count as int)) == Some(Seq::<int>::empty()));
        assert(seq_int(vals@) + Seq::<int>::empty() =~= seq_int(vals@));
    }
    Some(vals)
}

proof fn lemma_wsize_nonneg(c: Seq<int>, i: int)
    requires
        forall|t: int| 0 <= t < c.len() ==> #[trigger] c[t] >= 1,
    ensures
        wsize(c, i) >= 0,
    decreases c.len() - i,
{
    if 0 <= i < c.len() - 1 {
        lemma_wsize_nonneg(c, i + 1);
        assert(rows_at(c, i) * c[i] >= 0) by (nonlinear_arith)
            requires
                rows_at(c, i) >= 0,
                c[i] >= 1,
        ;
    }
}

proof fn lemma_reshape_ws_len(vs: Seq<int>, c: Seq<int>, i: int)
    ensures
        reshape_ws(vs, c, i).len() == if 0 <= i < c.len() - 1 {
            c.len() - 1 - i
        } else {
            0int
        },
    decreases c.len() - i,
{
    if 0 <= i < c.len() - 1 {
        lemma_reshape_ws_len(vs.skip(rows_at(c, i) * c[i]), c, i + 1);
    }
}

/// Rebuild a network from a decoded flat value sequence, validating every
/// constraint `NN::wf` demands; any violation yields nothing.
#[verifier::loop_isolation(false)]
#[verifier::rlimit(100)]
fn build_nn(vals: &Vec<i64>) -> (r: Option<NN>)
    ensures
        r matches Some(n) ==> n.wf() && vals_to_snapshot(seq_int(vals@)) == Some(
            (config_int(n.config@), tag_of(n.activ_func), n.mut_rate as int, weights_int(
                n.weights@,
            )),
        ),
        r is None ==> vals_to_snapshot(seq_int(vals@)) is None,
{
    let ghost vs = seq_int(vals@);
    let nv = vals.len();
    if nv < 1 {
        return None;
    }
    let k64 = vals[0];
    proof {
        assert(vs[0] == k64 as int);
        assert(vs.len() == nv);
    }
    if k64 < 2 || k64 > 16 {
        return None;
    }
    let k = k64 as usize;
    if nv < k + 3 {
        return None;
    }
    let ghost c = vs.subrange(1, k as int + 1);
    let mut cfg: Vec<usize> = Vec::new();
    let mut t: usize = 0;
    while t < k
        invariant
            t <= k,
            2 <= k <= 16,
            nv == vals@.len(),
            nv >= k + 3,
            vs == seq_int(vals@),
            c == vs.subrange(1, k as int + 1),
            cfg@.len() == t,
            forall|x: int| 0 <= x < t ==> #[trigger] cfg@[x] as int == c[x],
            forall|x: int| 0 <= x < t ==> 1 <= #[trigger] cfg@[x] <= MAX_WIDTH,
            forall|x: int| 0 <= x < t && x < k - 1 ==> #[trigger] cfg@[x] >= 2,
        decreases k - t,
    {
        let e = vals[1 + t];
        proof {
            assert(c[t as int] == e as int);
        }
        if e < 1 || e > 4096 {
            proof {
                assert(!config_ok(c));
            }
            return None;
        }
        if t + 1 < k && e < 2 {
            proof {
                assert(!config_ok(c));
            }
            return None;
        }
        cfg.push(e as usize);
        t = t + 1;
    }
    proof {
        assert(config_int(cfg@) =~= c);
        assert(config_ok(c));
    }
    let tagv = vals[k + 1];
    proof {
        assert(vs[k as int + 1] == tagv as int);
        assert(vs[k as int + 2] == vals@[k as int + 2] as int);
    }
    if tagv < 0 || tagv > 2 {
        return None;
    }
    let activ = if tagv == 0 {
        ActivationFunc::ReLU
    } else if tagv == 1 {
        ActivationFunc::Sigmoid
    } else {
        ActivationFunc::Tanh
    };
    let rate = vals[k + 2];
    if rate < 0 || rate > FX_ONE {
        return None;
    }
    let ghost rfull = reshape_ws(vs.skip(k as int + 3), c, 0);
    proof {
        lemma_reshape_ws_len(vs.skip(k as int + 3), c, 0);
        lemma_wsize_nonneg(c, 0);
        assert(vs.skip(k as int + 3).skip(0) =~= vs.skip(k as int + 3));
    }
    let mut ws: Vec<Vec<Vec<i64>>> = Vec::new();
    let mut cursor: usize = k + 3;
    let mut li: usize = 0;
    while li < k - 1
        invariant
            li <= k - 1,
            2 <= k <= 16,
            nv == vals@.len(),
            vs == seq_int(vals@),
            c == vs.subrange(1, k as int + 1),
            config_ok(c),
            cfg@.len() == k,
            forall|x: int| 0 <= x < k ==> #[trigger] cfg@[x] as int == c[x],
            forall|x: int| 0 <= x < k ==> 1 <= #[trigger] cfg@[x] <= MAX_WIDTH,
            forall|x: int| 0 <= x < k && x < k - 1 ==> #[trigger] cfg@[x] >= 2,
            rfull == reshape_ws(vs.skip(k as int + 3), c, 0),
            ws@.len() == li,
            k + 3 <= cursor <= nv,
            wsize(c, 0) == cursor - (k + 3) + wsize(c, li as int),
            rfull =~= weights_int(ws@) + reshape_ws(vs.skip(cursor as int), c, li as int),
            forall|x: int|
                0 <= x < li ==> mat_wf(#[trigger] ws@[x], spec_rows(cfg@, x), cfg@[x] as int),
        decreases k - 1 - li,
    {
        let rows: usize = if li + 2 == k {
            cfg[li + 1]
        } else {
            cfg[li + 1] - 1
        };
        let cols: usize = cfg[li];
        proof {
            assert(rows as int == rows_at(c, li as int));
            assert(cols as int == c[li as int]);
            lemma_wsize_nonneg(c, li as int + 1);
            assert(rows * cols <= 4096 * 4096) by (nonlinear_arith)
                requires
                    0 <= rows <= 4096,
                    0 <= cols <= 4096,
            ;
        }
        let sz = rows * cols;
        if sz > nv - cursor {
            proof {
                assert(wsize(c, li as int) == sz + wsize(c, li as int + 1));
                assert(nv < k + 3 + wsize(c, 0));
                assert(vals_to_snapshot(vs) is None);
            }
            return None;
        }
        let ghost seg = vs.skip(cursor as int).take(sz as int);
        let ghost rmat = reshape_mat(seg, rows as int, cols as int);
        proof {
            assert(vs.skip(cursor as int).skip(sz as int) =~= vs.skip(cursor as int + sz as int));
            assert(reshape_ws(vs.skip(cursor as int), c, li as int) == seq![rmat] + reshape_ws(
                vs.skip(cursor as int + sz as int),
                c,
                li as int + 1,
            ));
            assert(rfull[li as int] == rmat);
        }
        let mut m: Vec<Vec<i64>> = Vec::new();
        let mut r: usize = 0;
        while r < rows
            invariant
                r <= rows,
                rows <= 4096,
                cols <= 4096,
                sz == rows * cols,
                nv == vals@.len(),
                vs == seq_int(vals@),
                cursor + sz <= nv,
                seg == vs.skip(cursor as int).take(sz as int),
                rmat == reshape_mat(seg, rows as int, cols as int),
                rfull[li as int] == rmat,
                li < k - 1,
                2 <= k <= 16,
                rfull == reshape_ws(vs.skip(k as int + 3), c, 0),
                m@.len() == r,
                forall|x: int|
                    0 <= x < r ==> (#[trigger] m@[x])@.len() == cols && forall|y: int|
                        0 <= y < cols ==> -FX_LIM <= #[trigger] m@[x]@[y] <= FX_LIM,
                forall|x: int| 0 <= x < r ==> seq_int((#[trigger] m@[x])@) == rmat[x],
            decreases rows - r,
        {
            proof {
                assert(0 <= r * cols && r * cols + cols <= sz) by (nonlinear_arith)
                    requires
                        0 <= r < rows,
                        cols >= 0,
                        sz == rows * cols,
                ;
            }
            let mut row: Vec<i64> = Vec::new();
            let mut j: usize = 0;
            while j < cols
                invariant
                    j <= cols,
                    r < rows,
                    rows <= 4096,
                    cols <= 4096,
                    sz == rows * cols,
                    0 <= r * cols,
                    r * cols + cols <= sz,
                    nv == vals@.len(),
                    vs == seq_int(vals@),
                    cursor + sz <= nv,
                    seg == vs.skip(cursor as int).take(sz as int),
                    rmat == reshape_mat(seg, rows as int, cols as int),
                    rfull[li as int] == rmat,
                    li < k - 1,
                    2 <= k <= 16,
                    rfull == reshape_ws(vs.skip(k as int + 3), c, 0),
                    c == vs.subrange(1, k as int + 1),
                    row@.len() == j,
                    forall|x: int|
                        0 <= x < j ==> #[trigger] row@[x] == vals@[cursor + r * cols + x],
                    forall|x: int| 0 <= x < j ==> -FX_LIM <= #[trigger] row@[x] <= FX_LIM,
                decreases cols - j,
            {
                let idx = cursor + r * cols + j;
                let w = vals[idx];
                proof {
                    assert(seg[r * cols + j] == vs[cursor + r * cols + j]);
                    assert(rmat[r as int].len() == cols);
                    assert(rmat[r as int][j as int] == seg[r * cols + j]);
                }
                if w < -FX_LIM || w > FX_LIM {
                    proof {
                        assert(ws_elem(rfull, li as int, r as int, j as int) == w as int);
                        lemma_reshape_ws_len(vs.skip(k as int + 3), c, 0);
                        assert(!ws_in_band(rfull));
                        assert(vals_to_snapshot(vs) is None);
                    }
                    return None;
                }
                row.push(w);
                j = j + 1;
            }
            proof {
                assert forall|y: int| 0 <= y < cols implies seq_int(row@)[y] == rmat[r as int][y]
                    by {
                    assert(rmat[r as int][y] == seg[r * cols + y]);
                    assert(row@[y] == vals@[cursor + r * cols + y]);
                }
                assert(seq_int(row@) =~= rmat[r as int]);
            }
            m.push(row);
            r = r + 1;
        }
        proof {
            assert(mat_int(m) =~= rmat);
            assert(spec_rows(cfg@, li as int) == rows as int);
            assert(mat_wf(m, spec_rows(cfg@, li as int), cfg@[li as int] as int));
        }
        let ghost prev_ws = ws@;
        ws.push(m);
        cursor = cursor + sz;
        li = li + 1;
        proof {
            assert(weights_int(ws@) =~= weights_int(prev_ws).push(mat_int(m)));
            assert(weights_int(prev_ws) + (seq![rmat] + reshape_ws(
                vs.skip(cursor as int),
                c,
                li as int,
            )) =~= weights_int(prev_ws).push(rmat) + reshape_ws(vs.skip(cursor as int), c, li as int));
            assert(rfull =~= weights_int(ws@) + reshape_ws(vs.skip(cursor as int), c, li as int));
            assert forall|x: int|
                0 <= x < li implies mat_wf(#[trigger] ws@[x], spec_rows(cfg@, x), cfg@[x] as int)
                by {
                if x < li - 1 {
                    assert(ws@[x] == prev_ws[x]);
                } else {
                    assert(ws@[x] == m);
                }
            }
        }
    }
    if cursor != nv {
        proof {
            assert(wsize(c, li as int) == 0);
            assert(nv != k + 3 + wsize(c, 0));
            assert(vals_to_snapshot(vs) is None);
        }
        return None;
    }
    proof {
        assert(wsize(c, li as int) == 0);
        assert(nv == k + 3 + wsize(c, 0));
        assert(reshape_ws(vs.skip(cursor as int), c, li as int) =~= Seq::<Seq<Seq<int>>>::empty());
        assert(rfull =~= weights_int(ws@));
        assert forall|i: int, r: int, j: int|
            0 <= i < rfull.len() && 0 <= r < rfull[i].len() && 0 <= j < rfull[i][r].len() implies
            -FX_LIM <= #[trigger] ws_elem(rfull, i, r, j) <= FX_LIM by {
            assert(mat_wf(ws@[i], spec_rows(cfg@, i), cfg@[i] as int));
            assert(rfull[i] == mat_int(ws@[i]));
            assert(rfull[i][r] == seq_int(ws@[i]@[r]@));
            assert(ws_elem(rfull, i, r, j) == ws@[i]@[r]@[j] as int);
        }
        assert(ws_in_band(rfull));
    }
    let n = NN { config: cfg, weights: ws, activ_func: activ, mut_rate: rate };
    proof {
        assert(n.wf());
        assert(vals_to_snapshot(vs) == Some(
            (config_int(n.config@), tag_of(n.activ_func), n.mut_rate as int, weights_int(
                n.weights@,
            )),
        ));
    }
    Some(n)
}

impl NN {
    /// Decode a snapshot produced by `export`. Exactly the byte strings that
    /// decode to a well-formed network are accepted; everything else fails
    /// with `IOError`, and nothing is partially constructed.
    pub fn import(data: &Vec<u8>) -> (r: Result<NN, EngineError>)
        ensures
            r is Ok <==> spec_parse(data@) is Some,
            r is Err ==> r == Err::<NN, EngineError>(EngineError::IOError),
            r matches Ok(n) ==> n.wf() && spec_parse(data@) == Some(
                (config_int(n.config@), tag_of(n.activ_func), n.mut_rate as int, weights_int(
                    n.weights@,
                )),
            ),
    {
        match decode_vals(data) {
            None => Err(EngineError::IOError),
            Some(vals) => match build_nn(&vals) {
                None => Err(EngineError::IOError),
                Some(n) => Ok(n),
            },
        }
    }
}

/// Law: decoding an exported snapshot yields exactly the network's content —
/// its topology, activation tag, mutation rate and every weight.
pub proof fn lemma_snapshot_round_trip(n: NN)
    requires
        n.wf(),
    ensures
        spec_parse(spec_export(n)) == Some(
            (config_int(n.config@), tag_of(n.activ_func), n.mut_rate as int, weights_int(
                n.weights@,
            )),
        ),
{
    let vs = snapshot_vals(n);
    let c = config_int(n.config@);
    let ws = weights_int(n.weights@);
    let k = n.config@.len() as int;
    lemma_wf_ws_facts(n);
    assert(forall|t: int| 0 <= t < c.len() ==> #[trigger] c[t] >= 1);
    lemma_flat_ws_len(ws, c, 0);
    lemma_flat_ws_band(ws, -FX_LIM as int, FX_LIM as int);
    let fw = flat_ws(ws);
    assert forall|t: int|
        0 <= t < vs.len() implies -0x7fff_ffff_ffff_ffff <= #[trigger] vs[t]
        <= 0x7fff_ffff_ffff_ffff by {
        if t == 0 {
        } else if t < k + 1 {
            assert(vs[t] == c[t - 1]);
        } else if t == k + 1 || t == k + 2 {
        } else {
            assert(vs[t] == fw[t - (k + 3)]);
        }
    }
    lemma_dec_enc_vals(vs);
    assert(vs[0] == k);
    assert(vs.subrange(1, k + 1) =~= c);
    assert(vs[k + 1] == tag_of(n.activ_func));
    assert(vs[k + 2] == n.mut_rate as int);
    assert(vs.len() == k + 3 + wsize(c, 0));
    assert(vs.skip(k + 3) =~= fw);
    lemma_reshape_flat_ws(ws, c, 0);
    assert(config_ok(c));
}

/// Law: a network decoded from an exported snapshot produces exactly the
/// same inference as the original, for every input. `m` stands for what
/// `import` returns on `export`'s bytes, pinned by `import`'s contract.
pub proof fn lemma_round_trip_same_inference(n: NN, m: NN, inputs: Seq<i64>)
    requires
        n.wf(),
        spec_parse(spec_export(n)) == Some(
            (config_int(m.config@), tag_of(m.activ_func), m.mut_rate as int, weights_int(
                m.weights@,
            )),
        ),
    ensures
        m.spec_feed_forward(inputs) == n.spec_feed_forward(inputs),
        m.mut_rate == n.mut_rate,
        m.config@ == n.config@,
{
    lemma_snapshot_round_trip(n);
    assert(weights_int(m.weights@) == weights_int(n.weights@));
    assert(tag_of(m.activ_func) == tag_of(n.activ_func));
    assert(m.activ_func == n.activ_func);
    assert(config_int(m.config@) == config_int(n.config@));
    assert forall|t: int| 0 <= t < m.config@.len() implies m.config@[t] == n.config@[t] by {
        assert(config_int(m.config@)[t] == config_int(n.config@)[t]);
    }
    assert(m.config@ =~= n.config@);
}

} // verus!
