//! The forward two-dimensional DCT-II of one 8x8 block, channel by channel,
//! in exact fixed-point arithmetic.
//!
//! The transform is F(u,v) = C(u)*C(v)*(1/4) * sum over x,y of
//! f(x,y)*cos(pi*(2x+1)*u/16)*cos(pi*(2y+1)*v/16), with C(0) = 1/sqrt(2) and
//! C(k) = 1 otherwise.  The basis weight C(u)*cos(pi*(2x+1)*u/16) is stored
//! in millionths, rounded to nearest, so a computed coefficient is the exact
//! integer sum of sample * weight * weight and the real-valued coefficient it
//! stands for is that integer divided by `COEFF_DENOM` (the 1/4 scale times
//! the two weight scales).  Every coefficient is pinned down exactly by
//! `spec_dct`, and the transform is proved linear over that model.

use vstd::prelude::*;
use vstd::arithmetic::mul::lemma_mul_basics;
use vstd::arithmetic::mul::lemma_mul_is_associative;
use vstd::arithmetic::mul::lemma_mul_is_distributive_add;
use vstd::arithmetic::mul::lemma_mul_is_distributive_add_other_way;
use crate::block::Block;
use crate::raster::YCbCrPixel;

verus! {

/// A stored coefficient divided by this denominator is the real-valued
/// DCT-II coefficient it represents: 4 * 1_000_000 * 1_000_000, the JPEG 1/4
/// scale joined with the two fixed-point basis scales.
pub const COEFF_DENOM: i64 = 4_000_000_000_000;

/// The DCT-II basis weight C(u) * cos(pi*(2x+1)*u/16) in millionths, rounded
/// to nearest, for sample position x and frequency u, both in 0..8.
pub open spec fn dct_tab(x: int, u: int) -> int {
    if u == 0 {
        707_107
    } else if x == 0 {
        if u == 1 {
            980_785
        } else if u == 2 {
            923_880
        } else if u == 3 {
            831_470
        } else if u == 4 {
            707_107
        } else if u == 5 {
            555_570
        } else if u == 6 {
            382_683
        } else {
            195_090
        }
    } else if x == 1 {
        if u == 1 {
            831_470
        } else if u == 2 {
            382_683
        } else if u == 3 {
            -195_090
        } else if u == 4 {
            -707_107
        } else if u == 5 {
            -980_785
        } else if u == 6 {
            -923_880
        } else {
            -555_570
        }
    } else if x == 2 {
        if u == 1 {
            555_570
        } else if u == 2 {
            -382_683
        } else if u == 3 {
            -980_785
        } else if u == 4 {
            -707_107
        } else if u == 5 {
            195_090
        } else if u == 6 {
            923_880
        } else {
            831_470
        }
    } else if x == 3 {
        if u == 1 {
            195_090
        } else if u == 2 {
            -923_880
        } else if u == 3 {
            -555_570
        } else if u == 4 {
            707_107
        } else if u == 5 {
            831_470
        } else if u == 6 {
            -382_683
        } else {
            -980_785
        }
    } else if x == 4 {
        if u == 1 {
            -195_090
        } else if u == 2 {
            -923_880
        } else if u == 3 {
            555_570
        } else if u == 4 {
            707_107
        } else if u == 5 {
            -831_470
        } else if u == 6 {
            -382_683
        } else {
            980_785
        }
    } else if x == 5 {
        if u == 1 {
            -555_570
        } else if u == 2 {
            -382_683
        } else if u == 3 {
            980_785
        } else if u == 4 {
            -707_107
        } else if u == 5 {
            -195_090
        } else if u == 6 {
            923_880
        } else {
            -831_470
        }
    } else if x == 6 {
        if u == 1 {
            -831_470
        } else if u == 2 {
            382_683
        } else if u == 3 {
            195_090
        } else if u == 4 {
            -707_107
        } else if u == 5 {
            980_785
        } else if u == 6 {
            -923_880
        } else {
            555_570
        }
    } else {
        if u == 1 {
            -980_785
        } else if u == 2 {
            923_880
        } else if u == 3 {
            -831_470
        } else if u == 4 {
            707_107
        } else if u == 5 {
            -555_570
        } else if u == 6 {
            382_683
        } else {
            -195_090
        }
    }
}

/// The basis weight as a machine integer, with its fixed-point bound.
fn dct_tab_at(x: usize, u: usize) -> (r: i64)
    requires
        x < 8,
        u < 8,
    ensures
        r as int == dct_tab(x as int, u as int),
        -1_000_000 <= r <= 1_000_000,
{
    if u == 0 {
        707_107
    } else if x == 0 {
        if u == 1 {
            980_785
        } else if u == 2 {
            923_880
        } else if u == 3 {
            831_470
        } else if u == 4 {
            707_107
        } else if u == 5 {
            555_570
        } else if u == 6 {
            382_683
        } else {
            195_090
        }
    } else if x == 1 {
        if u == 1 {
            831_470
        } else if u == 2 {
            382_683
        } else if u == 3 {
            -195_090
        } else if u == 4 {
            -707_107
        } else if u == 5 {
            -980_785
        } else if u == 6 {
            -923_880
        } else {
            -555_570
        }
    } else if x == 2 {
        if u == 1 {
            555_570
        } else if u == 2 {
            -382_683
        } else if u == 3 {
            -980_785
        } else if u == 4 {
            -707_107
        } else if u == 5 {
            195_090
        } else if u == 6 {
            923_880
        } else {
            831_470
        }
    } else if x == 3 {
        if u == 1 {
            195_090
        } else if u == 2 {
            -923_880
        } else if u == 3 {
            -555_570
        } else if u == 4 {
            707_107
        } else if u == 5 {
            831_470
        } else if u == 6 {
            -382_683
        } else {
            -980_785
        }
    } else if x == 4 {
        if u == 1 {
            -195_090
        } else if u == 2 {
            -923_880
        } else if u == 3 {
            555_570
        } else if u == 4 {
            707_107
        } else if u == 5 {
            -831_470
        } else if u == 6 {
            -382_683
        } else {
            980_785
        }
    } else if x == 5 {
        if u == 1 {
            -555_570
        } else if u == 2 {
            -382_683
        } else if u == 3 {
            980_785
        } else if u == 4 {
            -707_107
        } else if u == 5 {
            -195_090
        } else if u == 6 {
            923_880
        } else {
            -831_470
        }
    } else if x == 6 {
        if u == 1 {
            -831_470
        } else if u == 2 {
            382_683
        } else if u == 3 {
            195_090
        } else if u == 4 {
            -707_107
        } else if u == 5 {
            980_785
        } else if u == 6 {
            -923_880
        } else {
            555_570
        }
    } else {
        if u == 1 {
            -980_785
        } else if u == 2 {
            923_880
        } else if u == 3 {
            -831_470
        } else if u == 4 {
            707_107
        } else if u == 5 {
            -555_570
        } else if u == 6 {
            382_683
        } else {
            -195_090
        }
    }
}

/// A sample sequence as mathematical integers.
pub open spec fn int_samples(s: Seq<u8>) -> Seq<int> {
    Seq::new(s.len(), |k: int| s[k] as int)
}

/// Partial fixed-point DCT-II sum over the first `n` of the 64 row-major
/// sample positions (position k is sample row k / 8, column k % 8).
pub open spec fn dct_sum(f: Seq<int>, u: int, v: int, n: int) -> int
    decreases n,
{
    if n <= 0 {
        0
    } else {
        dct_sum(f, u, v, n - 1) + f[n - 1] * dct_tab((n - 1) / 8, u) * dct_tab((n - 1) % 8, v)
    }
}

/// The fixed-point DCT-II coefficient at frequency (u, v) of a 64-sample
/// channel: the full double sum of sample * row weight * column weight.
pub open spec fn spec_dct(f: Seq<int>, u: int, v: int) -> int {
    dct_sum(f, u, v, 64)
}

/// One term of the sum stays within 255 * 10^6 * 10^6 in magnitude.
proof fn lemma_term_bound(s: int, t1: int, t2: int)
    by (nonlinear_arith)
    requires
        0 <= s <= 255,
        -1_000_000 <= t1 <= 1_000_000,
        -1_000_000 <= t2 <= 1_000_000,
    ensures
        -255_000_000 <= s * t1 <= 255_000_000,
        -255_000_000_000_000 <= s * t1 * t2 <= 255_000_000_000_000,
{
}

/// One N x N grid of fixed-point frequency coefficients, row-major
/// (index = 8 * u + v for frequency pair (u, v)).
pub struct CoefficientMatrix {
    pub coeffs: Vec<i64>,
}

impl CoefficientMatrix {
    /// A coefficient matrix holds exactly 64 entries.
    pub open spec fn wf(self) -> bool {
        self.coeffs@.len() == 64
    }
}

/// Does `m` hold exactly the DCT-II coefficients of the 64-sample channel
/// `f`?  Entry ci is the coefficient at frequency (ci / 8, ci % 8).
pub open spec fn matrix_matches(f: Seq<int>, m: CoefficientMatrix) -> bool {
    &&& m.wf()
    &&& forall|ci: int| 0 <= ci < 64 ==> #[trigger] m.coeffs@[ci] == spec_dct(f, ci / 8, ci % 8)
}

/// Transform one 64-sample channel.  Every output entry equals the exact
/// fixed-point double sum `spec_dct`; nothing overflows because each term is
/// bounded by 255 * 10^12 and there are 64 of them.
pub fn transform_channel(samples: &Vec<u8>) -> (out: Vec<i64>)
    requires
        samples@.len() == 64,
    ensures
        out@.len() == 64,
        forall|ci: int|
            0 <= ci < 64 ==> #[trigger] out@[ci] == spec_dct(int_samples(samples@), ci / 8, ci % 8),
{
    let mut out: Vec<i64> = Vec::new();
    for ci in 0..64usize
        invariant
            samples@.len() == 64,
            out@.len() == ci,
            forall|cj: int|
                0 <= cj < ci ==> #[trigger] out@[cj] == spec_dct(
                    int_samples(samples@),
                    cj / 8,
                    cj % 8,
                ),
    {
        let u: usize = ci / 8;
        let v: usize = ci % 8;
        let mut acc: i64 = 0;
        for k in 0..64usize
            invariant
                samples@.len() == 64,
                u == ci / 8,
                v == ci % 8,
                ci < 64,
                acc as int == dct_sum(int_samples(samples@), u as int, v as int, k as int),
                -(k as int) * 255_000_000_000_000 <= acc as int <= (k as int)
                    * 255_000_000_000_000,
        {
            let t1: i64 = dct_tab_at(k / 8, u);
            let t2: i64 = dct_tab_at(k % 8, v);
            let s: i64 = samples[k] as i64;
            proof {
                lemma_term_bound(s as int, t1 as int, t2 as int);
            }
            acc = acc + s * t1 * t2;
        }
        out.push(acc);
    }
    out
}

/// The luma samples of a pixel sequence, as mathematical integers.
pub open spec fn luma_samples(s: Seq<YCbCrPixel>) -> Seq<int> {
    Seq::new(s.len(), |k: int| s[k].y as int)
}

/// The blue-difference samples of a pixel sequence, as mathematical integers.
pub open spec fn cb_samples(s: Seq<YCbCrPixel>) -> Seq<int> {
    Seq::new(s.len(), |k: int| s[k].cb as int)
}

/// The red-difference samples of a pixel sequence, as mathematical integers.
pub open spec fn cr_samples(s: Seq<YCbCrPixel>) -> Seq<int> {
    Seq::new(s.len(), |k: int| s[k].cr as int)
}

/// The three coefficient matrices of one block, one per channel.
pub struct BlockCoefficients {
    pub y: CoefficientMatrix,
    pub cb: CoefficientMatrix,
    pub cr: CoefficientMatrix,
}

/// Do the three matrices hold exactly the coefficients of the three channel
/// planes of the pixel sequence `s`?
pub open spec fn coefficients_match(s: Seq<YCbCrPixel>, c: BlockCoefficients) -> bool {
    &&& matrix_matches(luma_samples(s), c.y)
    &&& matrix_matches(cb_samples(s), c.cb)
    &&& matrix_matches(cr_samples(s), c.cr)
}

/// The luma plane of a block as a sample vector.
fn extract_luma(b: &Block) -> (out: Vec<u8>)
    requires
        b.wf(),
    ensures
        out@.len() == 64,
        forall|k: int| 0 <= k < 64 ==> #[trigger] out@[k] == b.pixels@[k].y,
{
    let mut out: Vec<u8> = Vec::new();
    for k in 0..64usize
        invariant
            b.wf(),
            out@.len() == k,
            forall|j: int| 0 <= j < k ==> #[trigger] out@[j] == b.pixels@[j].y,
    {
        out.push(b.pixels[k].y);
    }
    out
}

/// The blue-difference plane of a block as a sample vector.
fn extract_cb(b: &Block) -> (out: Vec<u8>)
    requires
        b.wf(),
    ensures
        out@.len() == 64,
        forall|k: int| 0 <= k < 64 ==> #[trigger] out@[k] == b.pixels@[k].cb,
{
    let mut out: Vec<u8> = Vec::new();
    for k in 0..64usize
        invariant
            b.wf(),
            out@.len() == k,
            forall|j: int| 0 <= j < k ==> #[trigger] out@[j] == b.pixels@[j].cb,
    {
        out.push(b.pixels[k].cb);
    }
    out
}

/// The red-difference plane of a block as a sample vector.
fn extract_cr(b: &Block) -> (out: Vec<u8>)
    requires
        b.wf(),
    ensures
        out@.len() == 64,
        forall|k: int| 0 <= k < 64 ==> #[trigger] out@[k] == b.pixels@[k].cr,
{
    let mut out: Vec<u8> = Vec::new();
    for k in 0..64usize
        invariant
            b.wf(),
            out@.len() == k,
            forall|j: int| 0 <= j < k ==> #[trigger] out@[j] == b.pixels@[j].cr,
    {
        out.push(b.pixels[k].cr);
    }
    out
}

/// Transform one block: the forward DCT-II of each of its three channel
/// planes, computed independently with the same basis.
pub fn transform_block(b: &Block) -> (out: BlockCoefficients)
    requires
        b.wf(),
    ensures
        coefficients_match(b.pixels@, out),
{
    let ys = extract_luma(b);
    let cbs = extract_cb(b);
    let crs = extract_cr(b);
    proof {
        assert(int_samples(ys@) =~= luma_samples(b.pixels@));
        assert(int_samples(cbs@) =~= cb_samples(b.pixels@));
        assert(int_samples(crs@) =~= cr_samples(b.pixels@));
    }
    BlockCoefficients {
        y: CoefficientMatrix { coeffs: transform_channel(&ys) },
        cb: CoefficientMatrix { coeffs: transform_channel(&cbs) },
        cr: CoefficientMatrix { coeffs: transform_channel(&crs) },
    }
}

/// Pointwise linear combination a*f + b*g of two sample sequences.
pub open spec fn lin_comb(a: int, f: Seq<int>, b: int, g: Seq<int>) -> Seq<int>
    recommends
        f.len() == g.len(),
{
    Seq::new(f.len(), |k: int| a * f[k] + b * g[k])
}

/// Linearity of the partial sums.
proof fn lemma_dct_sum_linear(a: int, f: Seq<int>, b: int, g: Seq<int>, u: int, v: int, n: int)
    requires
        f.len() == g.len(),
        0 <= n <= f.len(),
    ensures
        dct_sum(lin_comb(a, f, b, g), u, v, n) == a * dct_sum(f, u, v, n) + b * dct_sum(
            g,
            u,
            v,
            n,
        ),
    decreases n,
{
    if n > 0 {
        lemma_dct_sum_linear(a, f, b, g, u, v, n - 1);
        let k = n - 1;
        let t1 = dct_tab(k / 8, u);
        let t2 = dct_tab(k % 8, v);
        let sf = dct_sum(f, u, v, k);
        let sg = dct_sum(g, u, v, k);
        let fa = f[k];
        let ga = g[k];
        lemma_mul_is_distributive_add_other_way(t1, a * fa, b * ga);
        lemma_mul_is_distributive_add_other_way(t2, a * fa * t1, b * ga * t1);
        lemma_mul_is_associative(a, fa, t1);
        lemma_mul_is_associative(a, fa * t1, t2);
        lemma_mul_is_associative(b, ga, t1);
        lemma_mul_is_associative(b, ga * t1, t2);
        lemma_mul_is_distributive_add(a, sf, fa * t1 * t2);
        lemma_mul_is_distributive_add(b, sg, ga * t1 * t2);
    }
}

/// The transform is linear: for any scalars a, b and any two 64-sample
/// channels f, g, the coefficient of a*f + b*g at every frequency (u, v) is
/// a times the coefficient of f plus b times the coefficient of g.  Over the
/// exact fixed-point model the identity holds with no tolerance at all.
pub proof fn lemma_dct_linear(a: int, f: Seq<int>, b: int, g: Seq<int>, u: int, v: int)
    requires
        f.len() == 64,
        g.len() == 64,
    ensures
        spec_dct(lin_comb(a, f, b, g), u, v) == a * spec_dct(f, u, v) + b * spec_dct(g, u, v),
{
    lemma_dct_sum_linear(a, f, b, g, u, v, 64);
}

/// The constant 64-sample channel of value c.
pub open spec fn const_samples(c: int) -> Seq<int> {
    Seq::new(64, |k: int| c)
}

/// Partial sum of one column of the basis table: the weights dct_tab(x, u)
/// for x < n.
pub open spec fn tab_col_sum(u: int, n: int) -> int
    decreases n,
{
    if n <= 0 {
        0
    } else {
        tab_col_sum(u, n - 1) + dct_tab(n - 1, u)
    }
}

/// On a constant channel, extending the sum across row x adds the row weight
/// times the partial column-sum of the column weights.
proof fn lemma_dct_const_partial_row(c: int, u: int, v: int, x: int, m: int)
    requires
        0 <= x < 8,
        0 <= m <= 8,
    ensures
        dct_sum(const_samples(c), u, v, 8 * x + m) == dct_sum(const_samples(c), u, v, 8 * x) + (c
            * dct_tab(x, u)) * tab_col_sum(v, m),
    decreases m,
{
    let p = c * dct_tab(x, u);
    if m == 0 {
        lemma_mul_basics(p);
    } else {
        lemma_dct_const_partial_row(c, u, v, x, m - 1);
        let k = 8 * x + m - 1;
        assert(k / 8 == x && k % 8 == m - 1);
        assert(const_samples(c)[k] == c);
        lemma_mul_is_associative(c, dct_tab(x, u), dct_tab(m - 1, v));
        lemma_mul_is_distributive_add(p, tab_col_sum(v, m - 1), dct_tab(m - 1, v));
    }
}

/// On a constant channel the double sum over the first x rows factors into
/// the two column sums.
proof fn lemma_dct_const_rows(c: int, u: int, v: int, x: int)
    requires
        0 <= x <= 8,
    ensures
        dct_sum(const_samples(c), u, v, 8 * x) == tab_col_sum(u, x) * (c * tab_col_sum(v, 8)),
    decreases x,
{
    let q = c * tab_col_sum(v, 8);
    if x == 0 {
        lemma_mul_basics(q);
    } else {
        lemma_dct_const_rows(c, u, v, x - 1);
        lemma_dct_const_partial_row(c, u, v, x - 1, 8);
        assert((c * dct_tab(x - 1, u)) * tab_col_sum(v, 8) == dct_tab(x - 1, u) * (c
            * tab_col_sum(v, 8))) by (nonlinear_arith);
        lemma_mul_is_distributive_add_other_way(q, tab_col_sum(u, x - 1), dct_tab(x - 1, u));
    }
}

/// Each full column of the basis table sums to zero except the DC column,
/// whose eight equal weights sum to 8 * 707107.
proof fn lemma_tab_col_sum_values(u: int)
    requires
        0 <= u < 8,
    ensures
        tab_col_sum(u, 8) == if u == 0 {
            5_656_856int
        } else {
            0int
        },
{
    reveal_with_fuel(tab_col_sum, 9);
    assert(tab_col_sum(0, 8) == 5_656_856);
    assert(tab_col_sum(1, 8) == 0);
    assert(tab_col_sum(2, 8) == 0);
    assert(tab_col_sum(3, 8) == 0);
    assert(tab_col_sum(4, 8) == 0);
    assert(tab_col_sum(5, 8) == 0);
    assert(tab_col_sum(6, 8) == 0);
    assert(tab_col_sum(7, 8) == 0);
}

/// A constant block transforms to a pure DC term: the coefficient at
/// frequency (0, 0) is the constant times the squared sum of the DC weights,
/// and every other coefficient is exactly zero — the fixed-point basis
/// columns cancel with no remainder.  In real units the DC term is close to
/// 8 times the constant (the squared weight sum over the denominator).
pub proof fn lemma_constant_block_is_dc(c: int, u: int, v: int)
    requires
        0 <= u < 8,
        0 <= v < 8,
    ensures
        spec_dct(const_samples(c), u, v) == if u == 0 && v == 0 {
            32_000_019_804_736 * c
        } else {
            0int
        },
{
    lemma_dct_const_rows(c, u, v, 8);
    lemma_tab_col_sum_values(u);
    lemma_tab_col_sum_values(v);
    if u == 0 && v == 0 {
        assert(5_656_856 * (c * 5_656_856) == 32_000_019_804_736 * c) by (nonlinear_arith);
    } else if u != 0 {
        lemma_mul_basics(c * tab_col_sum(v, 8));
    } else {
        lemma_mul_basics(c);
        lemma_mul_basics(tab_col_sum(u, 8));
    }
}

} // verus!
