//! Normalization of each hidden vector to zero mean and unit variance,
//! followed by a learned scale and, in the full variant, a learned shift.
//!
//! For a vector `v` of `n` numbers with sum `S`, the deviations `n * v[i] - S`
//! sum to zero exactly. Their squares sum to `n^3` times the variance, so the
//! standard deviation is the root of that sum over `n^3`; one unit, the
//! stability constant, is added under the root, which is rounded up. Each
//! score is the deviation over `n` times that root.
use vstd::prelude::*;
use crate::error::{EmbeddingError, InputConflict, shape_error, value_error};
use crate::fixed::{
    ONE, ceil_sqrt, div_toward_zero, lemma_ceil_sqrt_exists, lemma_ceil_sqrt_reaches, lemma_product_within,
    lemma_trunc_div_remainder, lemma_trunc_div_within, narrow, saturate, sqrt_ceil, trunc_div,
};
use crate::tensor::{Tensor3, has_shape, lemma_flat_view};

verus! {

/// The widest vector that can be normalized: two to the 20.
pub const MAX_WIDTH: usize = 0x10_0000;

/// The stability constant that is added to the variance, in stored units
/// squared.
pub const STABILITY: u128 = 1;

/// Which normalization a model uses.
#[derive(Debug, Clone, Copy, PartialEq, Eq, Structural)]
pub enum NormalizationVariant {
    /// Scale and shift after standardizing.
    Full,
    /// Scale only after standardizing.
    ScaleOnly,
}

/// The sum of the first `k` numbers of `v`.
pub open spec fn sum_prefix(v: Seq<i32>, k: nat) -> int
    decreases k,
{
    if k == 0 {
        0
    } else {
        sum_prefix(v, (k - 1) as nat) + v[k - 1]
    }
}

/// The sum of the numbers of `v`.
pub open spec fn total(v: Seq<i32>) -> int {
    sum_prefix(v, v.len())
}

/// How far `v[i]` lies above the mean of `v`, times the length of `v`.
pub open spec fn deviation(v: Seq<i32>, i: int) -> int {
    v.len() * v[i] - total(v)
}

/// The sum of the squares of the first `k` deviations of `v`.
pub open spec fn square_prefix(v: Seq<i32>, k: nat) -> int
    decreases k,
{
    if k == 0 {
        0
    } else {
        square_prefix(v, (k - 1) as nat) + deviation(v, k - 1) * deviation(v, k - 1)
    }
}

/// The sum of the squares of the deviations of `v`: the variance times the
/// cube of the length.
pub open spec fn squares(v: Seq<i32>) -> int {
    square_prefix(v, v.len())
}

/// The variance of `v`, rounded down, in stored units squared.
pub open spec fn variance(v: Seq<i32>) -> int {
    squares(v) / (v.len() * v.len() * v.len()) as int
}

/// The standard deviation of `v` in stored units: the root, rounded up, of
/// the variance plus the stability constant.
pub open spec fn spread(v: Seq<i32>) -> nat {
    ceil_sqrt((variance(v) + STABILITY) as nat)
}

/// The standard score of `v[i]`: its deviation from the mean over the
/// standard deviation, as a stored number.
pub open spec fn standard_score(v: Seq<i32>, i: int) -> int {
    trunc_div(deviation(v, i) * ONE, (v.len() * spread(v)) as int)
}

/// Output `i` of the normalization of `v`: the standard score times
/// `scale[i]`, plus `shift[i]` where there is a shift.
pub open spec fn normalized_output(v: Seq<i32>, scale: Seq<i32>, shift: Option<Seq<i32>>, i: int) -> i32 {
    let scaled = trunc_div(standard_score(v, i) * scale[i], ONE as int);
    match shift {
        Some(s) => saturate(scaled + s[i]),
        None => saturate(scaled),
    }
}

/// The normalization of one vector.
pub open spec fn normalized_vector(v: Seq<i32>, scale: Seq<i32>, shift: Option<Seq<i32>>) -> Seq<i32> {
    Seq::new(v.len(), |i: int| normalized_output(v, scale, shift, i))
}

/// The normalization of every vector of `x`.
pub open spec fn normalized(x: Seq<Seq<Seq<i32>>>, scale: Seq<i32>, shift: Option<Seq<i32>>) -> Seq<
    Seq<Seq<i32>>,
> {
    Seq::new(x.len(), |b: int| Seq::new(x[b].len(), |i: int| normalized_vector(x[b][i], scale, shift)))
}

/// Why vectors of `width` numbers cannot be normalized with `scale` and
/// `shift`, if they cannot.
pub open spec fn normalizer_fault(scale: Seq<i32>, shift: Option<Seq<i32>>, width: nat) -> Option<
    EmbeddingError,
> {
    if shift is Some && shift.unwrap().len() != scale.len() {
        Some(shape_error(scale.len() as usize, shift.unwrap().len() as usize))
    } else if scale.len() != width {
        Some(shape_error(scale.len() as usize, width as usize))
    } else if width > MAX_WIDTH {
        Some(shape_error(MAX_WIDTH, width as usize))
    } else {
        None
    }
}

/// The sum of the first `k` deviations of `v`.
pub open spec fn deviation_prefix(v: Seq<i32>, k: nat) -> int
    decreases k,
{
    if k == 0 {
        0
    } else {
        deviation_prefix(v, (k - 1) as nat) + deviation(v, k - 1)
    }
}

/// The sum of the first `k` standard scores of `v`.
pub open spec fn score_prefix(v: Seq<i32>, k: nat) -> int
    decreases k,
{
    if k == 0 {
        0
    } else {
        score_prefix(v, (k - 1) as nat) + standard_score(v, k - 1)
    }
}

/// The sum of the standard scores of `v`: their mean times the length.
pub open spec fn score_sum(v: Seq<i32>) -> int {
    score_prefix(v, v.len())
}

/// The sum of the squares of the first `k` standard scores of `v`.
pub open spec fn score_square_prefix(v: Seq<i32>, k: nat) -> int
    decreases k,
{
    if k == 0 {
        0
    } else {
        score_square_prefix(v, (k - 1) as nat) + standard_score(v, k - 1) * standard_score(v, k - 1)
    }
}

/// The sum of the squares of the standard scores of `v`: their mean square
/// times the length.
pub open spec fn score_squares(v: Seq<i32>) -> int {
    score_square_prefix(v, v.len())
}

/// The first `k` deviations sum to the length times the sum of the first `k`
/// numbers, less `k` times the sum of all.
proof fn lemma_deviation_prefix(v: Seq<i32>, k: nat)
    requires
        k <= v.len(),
    ensures
        deviation_prefix(v, k) == v.len() * sum_prefix(v, k) - k * total(v),
    decreases k,
{
    if k > 0 {
        lemma_deviation_prefix(v, (k - 1) as nat);
        let n = v.len() as int;
        let t = total(v);
        let p = sum_prefix(v, (k - 1) as nat);
        let x = v[k - 1] as int;
        assert(n * (p + x) == n * p + n * x) by (nonlinear_arith);
        assert(k * t == (k - 1) * t + t) by (nonlinear_arith);
        assert(sum_prefix(v, k) == p + x);
        assert(deviation(v, k - 1) == n * x - t);
        assert(deviation_prefix(v, k) == (n * p - (k - 1) * t) + (n * x - t));
    } else {
        assert(v.len() * sum_prefix(v, 0) == 0) by (nonlinear_arith)
            requires
                sum_prefix(v, 0) == 0,
        ;
        assert(0 * total(v) == 0);
    }
}

/// The deviations of a vector sum to zero.
pub proof fn lemma_deviations_sum_to_zero(v: Seq<i32>)
    ensures
        deviation_prefix(v, v.len()) == 0,
{
    lemma_deviation_prefix(v, v.len());
}

/// A sum of squares is not negative.
proof fn lemma_square_prefix_nonnegative(v: Seq<i32>, k: nat)
    ensures
        square_prefix(v, k) >= 0,
    decreases k,
{
    if k > 0 {
        lemma_square_prefix_nonnegative(v, (k - 1) as nat);
        let d = deviation(v, k - 1);
        assert(d * d >= 0) by (nonlinear_arith);
    }
}

/// The divisor of the standard scores is positive, and its square times the
/// length is no less than the sum of the squared deviations.
proof fn lemma_divisor(v: Seq<i32>)
    requires
        v.len() >= 1,
    ensures
        spread(v) >= 1,
        v.len() * spread(v) >= 1,
        squares(v) <= v.len() * ((v.len() * spread(v)) * (v.len() * spread(v))),
{
    let n = v.len() as int;
    let q = squares(v);
    let cube = n * n * n;
    lemma_square_prefix_nonnegative(v, v.len());
    assert(cube >= 1) by (nonlinear_arith)
        requires
            n >= 1,
            cube == n * n * n,
    ;
    let var = q / cube;
    vstd::arithmetic::div_mod::lemma_fundamental_div_mod(q, cube);
    vstd::arithmetic::div_mod::lemma_mod_bound(q, cube);
    vstd::arithmetic::div_mod::lemma_div_pos_is_pos(q, cube);
    assert(var == variance(v));
    lemma_ceil_sqrt_reaches((var + 1) as nat);
    let s = spread(v) as int;
    assert(s * s >= var + 1);
    assert(q < cube * (var + 1)) by (nonlinear_arith)
        requires
            q == cube * var + q % cube,
            q % cube < cube,
    ;
    assert(cube * (var + 1) <= cube * (s * s)) by (nonlinear_arith)
        requires
            cube >= 1,
            var + 1 <= s * s,
    ;
    assert(cube * (s * s) == n * ((n * s) * (n * s))) by (nonlinear_arith)
        requires
            cube == n * n * n,
    ;
    assert(n * s >= 1) by (nonlinear_arith)
        requires
            n >= 1,
            s >= 1,
    ;
}

/// The first `k` standard scores, times the divisor, differ from the first
/// `k` deviations in stored form by less than the divisor each.
proof fn lemma_score_prefix_bound(v: Seq<i32>, k: nat)
    requires
        v.len() >= 1,
        k <= v.len(),
    ensures
        ({
            let d = v.len() * spread(v);
            let gap = ONE * deviation_prefix(v, k) - d * score_prefix(v, k);
            -(k * (d - 1)) <= gap <= k * (d - 1)
        }),
    decreases k,
{
    if k > 0 {
        lemma_score_prefix_bound(v, (k - 1) as nat);
        lemma_divisor(v);
        let d = (v.len() * spread(v)) as int;
        let t = deviation(v, k - 1) * ONE;
        let z = standard_score(v, k - 1);
        let before = score_prefix(v, (k - 1) as nat);
        lemma_trunc_div_remainder(t, d);
        assert(d * (before + z) == d * before + d * z) by (nonlinear_arith);
        assert(k * (d - 1) == (k - 1) * (d - 1) + (d - 1)) by (nonlinear_arith);
    }
}

/// The squares of the first `k` standard scores, times the square of the
/// divisor, do not exceed the squares of the first `k` deviations in stored
/// form.
proof fn lemma_score_square_prefix_bound(v: Seq<i32>, k: nat)
    requires
        v.len() >= 1,
        k <= v.len(),
    ensures
        ({
            let d = v.len() * spread(v);
            (d * d) * score_square_prefix(v, k) <= (ONE * ONE) * square_prefix(v, k)
        }),
        score_square_prefix(v, k) >= 0,
    decreases k,
{
    if k > 0 {
        lemma_score_square_prefix_bound(v, (k - 1) as nat);
        lemma_divisor(v);
        let d = (v.len() * spread(v)) as int;
        let dev = deviation(v, k - 1);
        let t = dev * ONE;
        let z = standard_score(v, k - 1);
        let before = score_square_prefix(v, (k - 1) as nat);
        let squares_before = square_prefix(v, (k - 1) as nat);
        lemma_trunc_div_remainder(t, d);
        let dz = d * z;
        assert(dz * dz <= t * t) by (nonlinear_arith)
            requires
                (t >= 0 && 0 <= dz <= t) || (t <= 0 && t <= dz <= 0),
        ;
        assert(dz * dz == (d * d) * (z * z)) by (nonlinear_arith)
            requires
                dz == d * z,
        ;
        assert(t * t == (ONE * ONE) * (dev * dev)) by (nonlinear_arith)
            requires
                t == dev * ONE,
        ;
        assert((d * d) * (before + z * z) == (d * d) * before + (d * d) * (z * z)) by (nonlinear_arith);
        assert((ONE * ONE) * (squares_before + dev * dev) == (ONE * ONE) * squares_before + (ONE * ONE) * (dev
            * dev)) by (nonlinear_arith);
        assert(z * z >= 0) by (nonlinear_arith);
    }
}

/// The standard scores of a vector have a mean within one stored unit of
/// zero: their sum is smaller in size than their number.
pub proof fn lemma_scores_mean_near_zero(v: Seq<i32>)
    requires
        v.len() >= 1,
    ensures
        -(v.len() as int) < score_sum(v) < v.len(),
{
    let n = v.len() as int;
    let d = (v.len() * spread(v)) as int;
    let sum = score_sum(v);
    lemma_divisor(v);
    lemma_score_prefix_bound(v, v.len());
    lemma_deviations_sum_to_zero(v);
    assert(-(n * (d - 1)) <= d * sum <= n * (d - 1));
    assert(-n < sum < n) by (nonlinear_arith)
        requires
            -(n * (d - 1)) <= d * sum <= n * (d - 1),
            d >= 1,
            n >= 1,
    ;
}

/// The standard scores of a vector have a variance of at most one: the sum
/// of their squares does not exceed their number times the square of one.
pub proof fn lemma_scores_variance_at_most_one(v: Seq<i32>)
    requires
        v.len() >= 1,
    ensures
        0 <= score_squares(v) <= v.len() * (ONE * ONE),
{
    let n = v.len() as int;
    let d = (v.len() * spread(v)) as int;
    let dd = d * d;
    let zz = score_squares(v);
    let q = squares(v);
    let one = (ONE * ONE) as int;
    lemma_divisor(v);
    lemma_score_square_prefix_bound(v, v.len());
    assert(dd * zz <= one * q);
    assert(q <= n * dd);
    assert(dd >= 1) by (nonlinear_arith)
        requires
            d >= 1,
            dd == d * d,
    ;
    assert(zz <= n * one) by (nonlinear_arith)
        requires
            dd * zz <= one * q,
            q <= n * dd,
            dd >= 1,
            one >= 0,
    ;
}

/// The size of `x`.
spec fn magnitude(x: int) -> int {
    if x >= 0 {
        x
    } else {
        -x
    }
}

/// The sum, over the first `k` standard scores of `v`, of the square of the
/// score's size plus one: what the squares could be if no division had
/// rounded.
spec fn slack_prefix(v: Seq<i32>, k: nat) -> int
    decreases k,
{
    if k == 0 {
        0
    } else {
        slack_prefix(v, (k - 1) as nat) + (magnitude(standard_score(v, k - 1)) + 1) * (magnitude(
            standard_score(v, k - 1),
        ) + 1)
    }
}

/// A quotient rounded toward zero, made one larger in size, times the
/// divisor, exceeds the dividend in size.
proof fn lemma_rounding_slack(t: int, d: int)
    requires
        d >= 1,
    ensures
        ({
            let m = magnitude(trunc_div(t, d)) + 1;
            (d * d) * (m * m) >= t * t
        }),
{
    let z = trunc_div(t, d);
    let m = magnitude(z) + 1;
    let a = magnitude(t);
    lemma_trunc_div_remainder(t, d);
    lemma_trunc_div_within(t, d);
    assert(d * m > a) by (nonlinear_arith)
        requires
            d >= 1,
            m == magnitude(z) + 1,
            a == magnitude(t),
            t >= 0 ==> 0 <= t - d * z < d && z >= 0,
            t <= 0 ==> -d < t - d * z <= 0 && z <= 0,
    ;
    assert((d * d) * (m * m) >= a * a) by (nonlinear_arith)
        requires
            d * m > a,
            a >= 0,
    ;
    assert(a * a == t * t) by (nonlinear_arith)
        requires
            a == magnitude(t),
    ;
}

/// Twice a number's size, in stored units, is at most its square plus the
/// square of one.
proof fn lemma_size_below_squares(z: int)
    ensures
        ({
            let m = magnitude(z) + 1;
            ONE * (m * m) <= (ONE + 1) * (z * z) + (ONE * ONE + ONE)
        }),
{
    let a = magnitude(z);
    assert(a * a == z * z) by (nonlinear_arith)
        requires
            a == magnitude(z),
    ;
    assert(2 * 65536 * a <= a * a + 65536 * 65536) by (nonlinear_arith);
    let m = a + 1;
    let aa = a * a;
    let mm = m * m;
    assert(mm == aa + 2 * a + 1) by (nonlinear_arith)
        requires
            m == a + 1,
            aa == a * a,
            mm == m * m,
    ;
    assert(2 * 65536 * a <= aa + 65536 * 65536);
    assert(mm == aa + 2 * a + 1);
    assert(65536 * mm == 65536 * (aa + 2 * a + 1));
    assert(65536 * mm == 65536 * aa + 131072 * a + 65536);
    assert(z * z == aa);
    assert((ONE + 1) * (z * z) == 65536 * aa + aa);
}

/// The unrounded squares of the first `k` scores reach the squares of the
/// deviations, and exceed the squares of the scores by little.
proof fn lemma_slack_prefix_bound(v: Seq<i32>, k: nat)
    requires
        v.len() >= 1,
        k <= v.len(),
    ensures
        ({
            let d = v.len() * spread(v);
            (d * d) * slack_prefix(v, k) >= (ONE * ONE) * square_prefix(v, k)
        }),
        ONE * slack_prefix(v, k) <= (ONE + 1) * score_square_prefix(v, k) + k * (ONE * ONE + ONE),
    decreases k,
{
    if k > 0 {
        lemma_slack_prefix_bound(v, (k - 1) as nat);
        lemma_divisor(v);
        let d = (v.len() * spread(v)) as int;
        let dev = deviation(v, k - 1);
        let t = dev * ONE;
        let z = standard_score(v, k - 1);
        let m = magnitude(z) + 1;
        let slack_before = slack_prefix(v, (k - 1) as nat);
        let squares_before = square_prefix(v, (k - 1) as nat);
        let scores_before = score_square_prefix(v, (k - 1) as nat);
        lemma_rounding_slack(t, d);
        lemma_size_below_squares(z);
        assert(t * t == (ONE * ONE) * (dev * dev)) by (nonlinear_arith)
            requires
                t == dev * ONE,
        ;
        assert((d * d) * (slack_before + m * m) == (d * d) * slack_before + (d * d) * (m * m))
            by (nonlinear_arith);
        assert((ONE * ONE) * (squares_before + dev * dev) == (ONE * ONE) * squares_before + (ONE * ONE) * (dev
            * dev)) by (nonlinear_arith);
        assert(slack_prefix(v, k) == slack_before + m * m);
        assert(score_square_prefix(v, k) == scores_before + z * z);
    }
}

/// The standard scores of a vector have a variance near one: it falls short
/// of one by less than `2/s + 2/ONE + 1/ONE^2`, where `s` is the standard
/// deviation of the vector in stored units and `ONE` the stored form of one.
pub proof fn lemma_scores_variance_near_one(v: Seq<i32>)
    requires
        v.len() >= 1,
    ensures
        spread(v) * (score_squares(v) + 2 * v.len() * ONE + v.len()) > (ONE * ONE) * v.len() * (spread(v) - 2),
{
    let n = v.len() as int;
    let s = spread(v) as int;
    let d = n * s;
    let zz = score_squares(v);
    let q = squares(v);
    let w = slack_prefix(v, v.len());
    let cube = n * n * n;
    let var = variance(v);
    let one = (ONE * ONE) as int;
    let top = zz + 2 * n * ONE + n;
    lemma_divisor(v);
    lemma_scores_variance_at_most_one(v);
    lemma_slack_prefix_bound(v, v.len());
    lemma_square_prefix_nonnegative(v, v.len());
    assert(cube >= 1) by (nonlinear_arith)
        requires
            n >= 1,
            cube == n * n * n,
    ;
    vstd::arithmetic::div_mod::lemma_fundamental_div_mod(q, cube);
    vstd::arithmetic::div_mod::lemma_mod_bound(q, cube);
    vstd::arithmetic::div_mod::lemma_div_pos_is_pos(q, cube);
    lemma_ceil_sqrt_exists((var + 1) as nat);
    assert((s - 1) * (s - 1) < var + 1);
    assert(var > s * (s - 2)) by (nonlinear_arith)
        requires
            (s - 1) * (s - 1) < var + 1,
    ;
    assert(q >= cube * var);
    assert(w <= top);
    assert(one * (cube * (s * (s - 2))) < (d * d) * top) by (nonlinear_arith)
        requires
            var > s * (s - 2),
            cube >= 1,
            q >= cube * var,
            (d * d) * w >= one * q,
            w <= top,
            one == 65536 * 65536,
            d * d >= 0,
    ;
    assert(one * n * (s - 2) < s * top) by (nonlinear_arith)
        requires
            one * (cube * (s * (s - 2))) < (d * d) * top,
            cube == n * n * n,
            d == n * s,
            n >= 1,
            s >= 1,
    ;
}

/// Each standard score of a vector is no larger in size than 1024 where the
/// vector is no wider than `MAX_WIDTH`: it fits a stored number.
pub proof fn lemma_score_fits(v: Seq<i32>, i: int)
    requires
        1 <= v.len() <= MAX_WIDTH,
        0 <= i < v.len(),
    ensures
        -0x400_0000 <= standard_score(v, i) <= 0x400_0000,
{
    let z = standard_score(v, i);
    lemma_scores_variance_at_most_one(v);
    lemma_score_square_within(v, v.len(), i);
    assert(z * z <= 0x10_0000 * (ONE * ONE));
    assert(-0x400_0000 <= z <= 0x400_0000) by (nonlinear_arith)
        requires
            z * z <= 0x10_0000 * (65536 * 65536),
    ;
}

/// The square of one of the first `k` standard scores is no more than the
/// sum of the squares of them all.
proof fn lemma_score_square_within(v: Seq<i32>, k: nat, i: int)
    requires
        0 <= i < k,
    ensures
        standard_score(v, i) * standard_score(v, i) <= score_square_prefix(v, k),
        score_square_prefix(v, k) >= 0,
    decreases k,
{
    let z = standard_score(v, k - 1);
    assert(z * z >= 0) by (nonlinear_arith);
    lemma_score_square_prefix_nonnegative(v, (k - 1) as nat);
    if i < k - 1 {
        lemma_score_square_within(v, (k - 1) as nat, i);
    }
}

/// A sum of squares of scores is not negative.
proof fn lemma_score_square_prefix_nonnegative(v: Seq<i32>, k: nat)
    ensures
        score_square_prefix(v, k) >= 0,
    decreases k,
{
    if k > 0 {
        lemma_score_square_prefix_nonnegative(v, (k - 1) as nat);
        let z = standard_score(v, k - 1);
        assert(z * z >= 0) by (nonlinear_arith);
    }
}

/// A sum of `k` stored numbers is no larger in size than `k` times two to
/// the 31.
proof fn lemma_sum_prefix_bound(v: Seq<i32>, k: nat)
    requires
        k <= v.len(),
    ensures
        -(k * 0x8000_0000) <= sum_prefix(v, k) <= k * 0x8000_0000,
    decreases k,
{
    if k > 0 {
        lemma_sum_prefix_bound(v, (k - 1) as nat);
    }
}

/// The square and the cube of a width up to `MAX_WIDTH` fit 64 bits.
proof fn lemma_cube_bound(n: int)
    by (nonlinear_arith)
    requires
        1 <= n <= 0x10_0000,
    ensures
        1 <= n * n <= 0x100_0000_0000,
        1 <= n * n * n <= 0x1000_0000_0000_0000,
{
}

/// The standard scores of a vector that is neither empty nor wider than
/// `MAX_WIDTH`.
fn scores(v: &Vec<i32>) -> (z: Vec<i32>)
    requires
        0 < v@.len() <= MAX_WIDTH,
    ensures
        z@.len() == v@.len(),
        forall|i: int| 0 <= i < v@.len() ==> z@[i] == standard_score(v@, i),
{
    let n: i128 = v.len() as i128;
    let mut sum: i128 = 0;
    let mut k: usize = 0;
    while k < v.len()
        invariant
            k <= v.len() <= MAX_WIDTH,
            sum == sum_prefix(v@, k as nat),
        decreases v.len() - k,
    {
        proof {
            lemma_sum_prefix_bound(v@, k as nat);
        }
        sum = sum + v[k] as i128;
        k = k + 1;
    }
    proof {
        lemma_sum_prefix_bound(v@, v@.len());
    }
    let mut square_sum: u128 = 0;
    let mut k: usize = 0;
    while k < v.len()
        invariant
            k <= v.len() <= MAX_WIDTH,
            n == v@.len(),
            sum == total(v@),
            -(n * 0x8000_0000) <= sum <= n * 0x8000_0000,
            square_sum == square_prefix(v@, k as nat),
            square_sum <= k * 0x100_0000_0000_0000_0000_0000_0000,
        decreases v.len() - k,
    {
        let value: i128 = v[k] as i128;
        proof {
            lemma_product_within(n as int, 0x10_0000, value as int, 0x8000_0000);
        }
        let d: i128 = n * value - sum;
        proof {
            lemma_product_within(d as int, 0x10_0000_0000_0000, d as int, 0x10_0000_0000_0000);
            assert(d * d >= 0) by (nonlinear_arith);
        }
        square_sum = square_sum + (d * d) as u128;
        k = k + 1;
    }
    proof {
        lemma_cube_bound(n as int);
    }
    let cube: u128 = (n * n * n) as u128;
    let quotient: u128 = square_sum / cube;
    proof {
        vstd::arithmetic::div_mod::lemma_div_nonincreasing(square_sum as int, cube as int);
        assert(quotient == variance(v@));
    }
    let root: u128 = sqrt_ceil(quotient + STABILITY);
    assert(root >= 1) by {
        if root == 0 {
            assert((root as nat) * (root as nat) == 0) by (nonlinear_arith)
                requires
                    root == 0,
            ;
        }
    }
    assert(root == spread(v@));
    proof {
        lemma_product_within(n as int, 0x10_0000, root as int, 0x1_0000_0000_0000_0000);
        assert(n * root >= 1) by (nonlinear_arith)
            requires
                n >= 1,
                root >= 1,
        ;
    }
    let divisor: i128 = n * (root as i128);
    let mut z: Vec<i32> = Vec::with_capacity(v.len());
    let mut k: usize = 0;
    while k < v.len()
        invariant
            k <= v.len() <= MAX_WIDTH,
            1 <= v.len(),
            n == v@.len(),
            sum == total(v@),
            -(n * 0x8000_0000) <= sum <= n * 0x8000_0000,
            divisor == v@.len() * spread(v@),
            divisor >= 1,
            z@.len() == k,
            forall|i: int| 0 <= i < k ==> z@[i] == standard_score(v@, i),
        decreases v.len() - k,
    {
        let value: i128 = v[k] as i128;
        proof {
            lemma_product_within(n as int, 0x10_0000, value as int, 0x8000_0000);
            lemma_score_fits(v@, k as int);
        }
        let d: i128 = n * value - sum;
        z.push(div_toward_zero(d * 65536, divisor) as i32);
        k = k + 1;
    }
    z
}

/// The standard scores of `v`: each number's deviation from the mean over
/// the standard deviation. Their mean is within one stored unit of zero, and
/// their variance is at most one and near one for a vector whose standard
/// deviation is many stored units. Fails on a vector wider than `MAX_WIDTH`.
pub fn standard_scores(v: &Vec<i32>) -> (result: Result<Vec<i32>, EmbeddingError>)
    ensures
        v@.len() > MAX_WIDTH ==> result == Err::<Vec<i32>, EmbeddingError>(shape_error(MAX_WIDTH, v@.len() as usize)),
        v@.len() <= MAX_WIDTH ==> result is Ok,
        result matches Ok(z) ==> {
            &&& z@.len() == v@.len()
            &&& forall|i: int| 0 <= i < v@.len() ==> z@[i] == standard_score(v@, i)
            &&& v@.len() >= 1 ==> -(v@.len() as int) < score_sum(v@) < v@.len()
            &&& score_squares(v@) <= v@.len() * (ONE * ONE)
            &&& v@.len() >= 1 ==> spread(v@) * (score_squares(v@) + 2 * v@.len() * ONE + v@.len()) > (ONE * ONE)
                * v@.len() * (spread(v@) - 2)
        },
{
    let n: usize = v.len();
    if n > MAX_WIDTH {
        return Err(EmbeddingError::ShapeError { expected: MAX_WIDTH, found: n });
    }
    if n == 0 {
        return Ok(Vec::new());
    }
    proof {
        lemma_scores_mean_near_zero(v@);
        lemma_scores_variance_at_most_one(v@);
        lemma_scores_variance_near_one(v@);
    }
    Ok(scores(v))
}

/// Rescales each hidden vector: standardization, then a learned scale and,
/// in the full variant, a learned shift.
#[derive(Debug)]
pub enum Normalizer {
    /// Scale and shift.
    Full { scale: Vec<i32>, shift: Vec<i32> },
    /// Scale only.
    ScaleOnly { scale: Vec<i32> },
}

impl Normalizer {
    /// The scale, one number for each feature.
    pub open spec fn scale(&self) -> Seq<i32> {
        match self {
            Normalizer::Full { scale, shift } => scale@,
            Normalizer::ScaleOnly { scale } => scale@,
        }
    }

    /// The shift, one number for each feature, where the variant has one.
    pub open spec fn shift(&self) -> Option<Seq<i32>> {
        match self {
            Normalizer::Full { scale, shift } => Some(shift@),
            Normalizer::ScaleOnly { scale } => None,
        }
    }

    /// The normalizer of the given variant. The full variant needs a shift;
    /// the scale-only variant takes none into account.
    pub fn new(variant: NormalizationVariant, scale: Vec<i32>, shift: Option<Vec<i32>>) -> (result: Result<
        Normalizer,
        EmbeddingError,
    >)
        ensures
            variant == NormalizationVariant::Full && shift is None ==> result == Err::<Normalizer, EmbeddingError>(
                value_error(InputConflict::NoShift),
            ),
            variant == NormalizationVariant::Full && shift is Some ==> result == Ok::<Normalizer, EmbeddingError>(
                Normalizer::Full { scale, shift: shift.unwrap() },
            ),
            variant == NormalizationVariant::ScaleOnly ==> result == Ok::<Normalizer, EmbeddingError>(
                Normalizer::ScaleOnly { scale },
            ),
    {
        match variant {
            NormalizationVariant::Full => match shift {
                Some(shift) => Ok(Normalizer::Full { scale, shift }),
                None => Err(EmbeddingError::ValueError(InputConflict::NoShift)),
            },
            NormalizationVariant::ScaleOnly => Ok(Normalizer::ScaleOnly { scale }),
        }
    }

    /// Which variant this is.
    pub fn variant(&self) -> (variant: NormalizationVariant)
        ensures
            variant == NormalizationVariant::Full <==> self.shift() is Some,
    {
        match self {
            Normalizer::Full { .. } => NormalizationVariant::Full,
            Normalizer::ScaleOnly { .. } => NormalizationVariant::ScaleOnly,
        }
    }

    /// Whether vectors of `width` numbers can be normalized, and if not, why.
    pub fn accepts(&self, width: usize) -> (result: Result<(), EmbeddingError>)
        ensures
            match result {
                Ok(_) => normalizer_fault(self.scale(), self.shift(), width as nat) is None,
                Err(e) => normalizer_fault(self.scale(), self.shift(), width as nat) == Some(e),
            },
    {
        let features: usize = match self {
            Normalizer::Full { scale, shift } => {
                if shift.len() != scale.len() {
                    return Err(EmbeddingError::ShapeError { expected: scale.len(), found: shift.len() });
                }
                scale.len()
            },
            Normalizer::ScaleOnly { scale } => scale.len(),
        };
        if features != width {
            return Err(EmbeddingError::ShapeError { expected: features, found: width });
        }
        if width > MAX_WIDTH {
            return Err(EmbeddingError::ShapeError { expected: MAX_WIDTH, found: width });
        }
        Ok(())
    }

    /// The normalization of one vector that this normalizer fits.
    fn normalize_vector(&self, v: &Vec<i32>) -> (y: Vec<i32>)
        requires
            normalizer_fault(self.scale(), self.shift(), v@.len()) is None,
        ensures
            y@ == normalized_vector(v@, self.scale(), self.shift()),
    {
        let n: usize = v.len();
        let mut y: Vec<i32> = Vec::with_capacity(n);
        if n == 0 {
            assert(y@ =~= normalized_vector(v@, self.scale(), self.shift()));
            return y;
        }
        let z = scores(v);
        let mut k: usize = 0;
        while k < n
            invariant
                k <= n,
                n == v@.len(),
                normalizer_fault(self.scale(), self.shift(), v@.len()) is None,
                z@.len() == n,
                forall|i: int| 0 <= i < n ==> z@[i] == standard_score(v@, i),
                y@.len() == k,
                forall|i: int| 0 <= i < k ==> y@[i] == normalized_output(v@, self.scale(), self.shift(), i),
            decreases n - k,
        {
            let score: i128 = z[k] as i128;
            match self {
                Normalizer::Full { scale, shift } => {
                    let factor: i128 = scale[k] as i128;
                    proof {
                        lemma_product_within(score as int, 0x8000_0000, factor as int, 0x8000_0000);
                    }
                    let scaled: i128 = div_toward_zero(score * factor, 65536);
                    y.push(narrow(scaled + shift[k] as i128));
                },
                Normalizer::ScaleOnly { scale } => {
                    let factor: i128 = scale[k] as i128;
                    proof {
                        lemma_product_within(score as int, 0x8000_0000, factor as int, 0x8000_0000);
                    }
                    let scaled: i128 = div_toward_zero(score * factor, 65536);
                    y.push(narrow(scaled));
                },
            }
            k = k + 1;
        }
        assert(y@ =~= normalized_vector(v@, self.scale(), self.shift()));
        y
    }

    /// The normalization of every vector of `x`, each on its own. Fails where
    /// the width of `x` is not that of the scale, or is above `MAX_WIDTH`.
    pub fn normalize(&self, x: &Tensor3) -> (result: Result<Tensor3, EmbeddingError>)
        ensures
            match result {
                Ok(y) => normalizer_fault(self.scale(), self.shift(), x.dims().2) is None && y@ == normalized(
                    x@,
                    self.scale(),
                    self.shift(),
                ) && y.wf() && y.dims() == x.dims(),
                Err(e) => normalizer_fault(self.scale(), self.shift(), x.dims().2) == Some(e),
            },
    {
        let batch: usize = x.batch_size();
        let len: usize = x.seq_len();
        let width: usize = x.width();
        match self.accepts(width) {
            Err(e) => {
                return Err(e);
            },
            Ok(_) => {},
        }
        let mut data: Vec<Vec<Vec<i32>>> = Vec::with_capacity(batch);
        let mut b: usize = 0;
        while b < batch
            invariant
                b <= batch,
                x.dims() == (batch as nat, len as nat, width as nat),
                has_shape(x@, batch as nat, len as nat, width as nat),
                normalizer_fault(self.scale(), self.shift(), width as nat) is None,
                data@.len() == b,
                forall|q: int| 0 <= q < b ==> (#[trigger] data@[q]).deep_view() == normalized(x@, self.scale(), self.shift())[q],
                forall|q: int, i: int| 0 <= q < b && 0 <= i < len ==> (#[trigger] data@[q]@[i])@.len() == width,
            decreases batch - b,
        {
            let mut row: Vec<Vec<i32>> = Vec::with_capacity(len);
            let mut i: usize = 0;
            while i < len
                invariant
                    i <= len,
                    b < batch,
                    x.dims() == (batch as nat, len as nat, width as nat),
                    has_shape(x@, batch as nat, len as nat, width as nat),
                    normalizer_fault(self.scale(), self.shift(), width as nat) is None,
                    row@.len() == i,
                    forall|j: int| 0 <= j < i ==> (#[trigger] row@[j]).deep_view() == normalized_vector(x@[b as int][j], self.scale(), self.shift()),
                    forall|j: int| 0 <= j < i ==> (#[trigger] row@[j])@.len() == width,
                decreases len - i,
            {
                let y = self.normalize_vector(x.vector(b, i));
                proof {
                    lemma_flat_view(&y);
                }
                row.push(y);
                i = i + 1;
            }
            proof {
                assert(x@[b as int].len() == len);
                assert(row.deep_view() =~= normalized(x@, self.scale(), self.shift())[b as int]);
            }
            data.push(row);
            b = b + 1;
        }
        proof {
            let goal = normalized(x@, self.scale(), self.shift());
            assert(data.deep_view() =~= goal);
            assert forall|q: int| 0 <= q < goal.len() implies (#[trigger] goal[q]).len() == len by {
                assert(x@[q].len() == len);
            }
            assert forall|q: int, i: int| 0 <= q < goal.len() && 0 <= i < goal[q].len() implies (#[trigger] goal[q][i]).len()
                == width by {
                assert(x@[q].len() == len);
                assert(x@[q][i].len() == width);
            }
        }
        Ok(Tensor3::from_parts(data, len, width))
    }
}

} // verus!
