//! Q16.16 fixed-point arithmetic.
//!
//! A number `x` is stored as the `i32` nearest to `x * 65536` on the side of
//! zero. Sums and products are formed exactly in 128 bits, divisions round
//! toward zero, and a result that leaves the `i32` range is pinned to the
//! nearest end of it.
use vstd::prelude::*;

verus! {

/// The stored form of the number one.
pub const ONE: i32 = 65536;

/// `v` pinned to the range of `i32`.
pub open spec fn saturate(v: int) -> i32 {
    if v < i32::MIN {
        i32::MIN
    } else if v > i32::MAX {
        i32::MAX
    } else {
        v as i32
    }
}

/// The quotient of `a` by a positive `b`, rounded toward zero.
pub open spec fn trunc_div(a: int, b: int) -> int {
    if a >= 0 {
        a / b
    } else {
        -((-a) / b)
    }
}

/// The sum of the first `k` products `a[i] * b[i]`.
pub open spec fn dot_prefix(a: Seq<i32>, b: Seq<i32>, k: nat) -> int
    decreases k,
{
    if k == 0 {
        0
    } else {
        dot_prefix(a, b, (k - 1) as nat) + a[k - 1] * b[k - 1]
    }
}

/// The inner product of two sequences of one length, in stored units squared.
pub open spec fn dot(a: Seq<i32>, b: Seq<i32>) -> int {
    dot_prefix(a, b, a.len())
}

/// `s` is the least natural number whose square reaches `v`.
pub open spec fn is_ceil_sqrt(v: nat, s: nat) -> bool {
    s * s >= v && (s == 0 || (s - 1) * (s - 1) < v)
}

/// The square root of `v`, rounded up.
pub open spec fn ceil_sqrt(v: nat) -> nat {
    choose|s: nat| is_ceil_sqrt(v, s)
}

/// Squaring keeps the order of numbers that are not negative.
pub proof fn lemma_square_monotonic(a: int, b: int)
    by (nonlinear_arith)
    requires
        0 <= a <= b,
    ensures
        a * a <= b * b,
{
}

/// At most one number is the rounded-up square root of `v`.
pub proof fn lemma_ceil_sqrt_unique(v: nat, s: nat)
    requires
        is_ceil_sqrt(v, s),
    ensures
        ceil_sqrt(v) == s,
{
    let t = ceil_sqrt(v);
    assert(is_ceil_sqrt(v, t));
    if t < s {
        lemma_square_monotonic(t as int, s - 1);
    } else if s < t {
        lemma_square_monotonic(s as int, t - 1);
    }
}

/// A product is bounded by the product of the bounds of its factors.
pub proof fn lemma_product_within(x: int, bound_x: int, y: int, bound_y: int)
    by (nonlinear_arith)
    requires
        -bound_x <= x <= bound_x,
        -bound_y <= y <= bound_y,
    ensures
        -(bound_x * bound_y) <= x * y <= bound_x * bound_y,
{
}

/// A quotient by a positive number is no further from zero than the dividend.
pub proof fn lemma_trunc_div_within(a: int, b: int)
    requires
        b >= 1,
    ensures
        a >= 0 ==> 0 <= trunc_div(a, b) <= a,
        a <= 0 ==> a <= trunc_div(a, b) <= 0,
{
    if a >= 0 {
        vstd::arithmetic::div_mod::lemma_div_nonincreasing(a, b);
        vstd::arithmetic::div_mod::lemma_div_pos_is_pos(a, b);
    } else {
        vstd::arithmetic::div_mod::lemma_div_nonincreasing(-a, b);
        vstd::arithmetic::div_mod::lemma_div_pos_is_pos(-a, b);
    }
}

/// What a quotient rounded toward zero leaves over has the dividend's sign
/// and is smaller than the divisor.
pub proof fn lemma_trunc_div_remainder(a: int, d: int)
    requires
        d >= 1,
    ensures
        a >= 0 ==> 0 <= a - d * trunc_div(a, d) < d,
        a <= 0 ==> -d < a - d * trunc_div(a, d) <= 0,
        a >= 0 ==> 0 <= d * trunc_div(a, d) <= a,
        a <= 0 ==> a <= d * trunc_div(a, d) <= 0,
{
    if a >= 0 {
        vstd::arithmetic::div_mod::lemma_fundamental_div_mod(a, d);
        vstd::arithmetic::div_mod::lemma_mod_bound(a, d);
    } else {
        let q = (-a) / d;
        vstd::arithmetic::div_mod::lemma_fundamental_div_mod(-a, d);
        vstd::arithmetic::div_mod::lemma_mod_bound(-a, d);
        assert(d * (-q) == -(d * q)) by (nonlinear_arith);
    }
}

/// Every natural number has a square root rounded up.
pub proof fn lemma_ceil_sqrt_exists(v: nat)
    ensures
        is_ceil_sqrt(v, ceil_sqrt(v)),
    decreases v,
{
    if v == 0 {
        assert(is_ceil_sqrt(0, 0));
    } else {
        lemma_ceil_sqrt_exists((v - 1) as nat);
        let s = ceil_sqrt((v - 1) as nat);
        if s * s >= v {
            assert(s != 0) by (nonlinear_arith)
                requires
                    s * s >= v,
                    v > 0,
            ;
            assert(is_ceil_sqrt(v, s));
        } else {
            assert((s + 1) * (s + 1) >= v) by (nonlinear_arith)
                requires
                    s * s >= v - 1,
                    s >= 0,
            ;
            assert((s + 1 - 1) * (s + 1 - 1) == s * s);
            assert(is_ceil_sqrt(v, (s + 1) as nat));
        }
    }
}

/// The rounded-up root of a positive number is positive, and its square
/// reaches the number.
pub proof fn lemma_ceil_sqrt_reaches(v: nat)
    ensures
        ceil_sqrt(v) * ceil_sqrt(v) >= v,
        v >= 1 ==> ceil_sqrt(v) >= 1,
{
    lemma_ceil_sqrt_exists(v);
    let s = ceil_sqrt(v);
    if v >= 1 && s == 0 {
        assert(s * s == 0) by (nonlinear_arith)
            requires
                s == 0,
        ;
    }
}

/// Pins a wide value to the range of `i32`.
pub fn narrow(v: i128) -> (r: i32)
    ensures
        r == saturate(v as int),
{
    if v < -0x8000_0000 {
        i32::MIN
    } else if v > 0x7fff_ffff {
        i32::MAX
    } else {
        v as i32
    }
}

/// Divides by a positive number, rounding toward zero.
pub(crate) fn div_toward_zero(a: i128, b: i128) -> (q: i128)
    requires
        b > 0,
    ensures
        q == trunc_div(a as int, b as int),
{
    a / b
}

/// The inner product of two vectors of one length, exact.
pub(crate) fn dot_product(a: &Vec<i32>, b: &Vec<i32>) -> (r: i128)
    requires
        a.len() == b.len(),
    ensures
        r == dot(a@, b@),
{
    let mut acc: i128 = 0;
    let mut k: usize = 0;
    while k < a.len()
        invariant
            k <= a.len(),
            a.len() == b.len(),
            acc == dot_prefix(a@, b@, k as nat),
            -(k as int) * 0x4000_0000_0000_0000 <= acc <= k * 0x4000_0000_0000_0000,
        decreases a.len() - k,
    {
        let x: i128 = a[k] as i128;
        let y: i128 = b[k] as i128;
        proof {
            lemma_product_within(x as int, 0x8000_0000, y as int, 0x8000_0000);
        }
        acc = acc + x * y;
        k = k + 1;
    }
    acc
}

/// The square root of `v`, rounded up, by bisection.
pub fn sqrt_ceil(v: u128) -> (s: u128)
    ensures
        s == ceil_sqrt(v as nat),
        is_ceil_sqrt(v as nat, s as nat),
        s <= 0x1_0000_0000_0000_0000,
{
    if v == 0 {
        proof {
            lemma_ceil_sqrt_unique(0, 0);
        }
        return 0;
    }
    let mut lo: u128 = 0;
    let mut hi: u128 = 0x1_0000_0000_0000_0000;
    while hi - lo > 1
        invariant
            lo < hi <= 0x1_0000_0000_0000_0000,
            lo * lo < v,
            v <= hi * hi,
        decreases hi - lo,
    {
        let mid: u128 = lo + (hi - lo) / 2;
        proof {
            lemma_square_monotonic(mid as int, 0xffff_ffff_ffff_ffff);
        }
        if mid * mid >= v {
            hi = mid;
        } else {
            lo = mid;
        }
    }
    proof {
        lemma_ceil_sqrt_unique(v as nat, hi as nat);
    }
    hi
}

} // verus!
