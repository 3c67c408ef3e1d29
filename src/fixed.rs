//! Fixed-point vector arithmetic shared by every stage of the game.
use vstd::prelude::*;

verus! {

/// One world unit, in milli-units.
pub const UNIT: i64 = 1000;

/// One second, in microseconds.
pub const SECOND: i64 = 1_000_000;

/// The scale of a unit vector and of sines and cosines: 1.0 is one million.
pub const ONE: i64 = 1_000_000;

/// No coordinate leaves [-POS_LIMIT, POS_LIMIT] (a million world units).
pub const POS_LIMIT: i64 = 1_000_000_000;

/// No velocity component leaves [-VEL_LIMIT, VEL_LIMIT].
pub const VEL_LIMIT: i64 = 1_000_000_000;

/// The longest tick accepted, about a quarter of an hour.
pub const DT_LIMIT: i64 = 1_000_000_000;

/// A 2D vector in fixed-point units.
#[derive(Clone, Copy, Debug, PartialEq, Eq, Structural)]
pub struct Point {
    pub x: i64,
    pub y: i64,
}

pub open spec fn abs(a: int) -> int {
    if a < 0 { -a } else { a }
}

/// Division that rounds toward zero, as Rust's `/` does on integers.
pub open spec fn tdiv(a: int, d: int) -> int {
    if a >= 0 { a / d } else { -((-a) / d) }
}

pub open spec fn len_sq(x: int, y: int) -> int {
    x * x + y * y
}

/// `r` is the smallest natural number whose square reaches `s`.
pub open spec fn is_ceil_root(s: int, r: int) -> bool {
    r >= 0 && r * r >= s && (r == 0 || (r - 1) * (r - 1) < s)
}

pub open spec fn ceil_root(s: int) -> int {
    choose|r: int| is_ceil_root(s, r)
}

impl Point {
    pub open spec fn in_world(self) -> bool {
        -POS_LIMIT <= self.x <= POS_LIMIT && -POS_LIMIT <= self.y <= POS_LIMIT
    }

    pub open spec fn is_velocity(self) -> bool {
        -VEL_LIMIT <= self.x <= VEL_LIMIT && -VEL_LIMIT <= self.y <= VEL_LIMIT
    }

    pub open spec fn norm_sq(self) -> int {
        len_sq(self.x as int, self.y as int)
    }

    pub fn zero() -> (r: Point)
        ensures
            r.x == 0 && r.y == 0,
    {
        Point { x: 0, y: 0 }
    }
}

proof fn lemma_square_monotone(a: int, b: int)
    requires
        0 <= a <= b,
    ensures
        a * a <= b * b,
{
    assert(a * a <= b * b) by (nonlinear_arith)
        requires
            0 <= a <= b,
    ;
}

/// The ceiling square root is unique, so `ceil_root` names it.
pub proof fn lemma_ceil_root_unique(s: int, r: int)
    requires
        is_ceil_root(s, r),
    ensures
        ceil_root(s) == r,
{
    let c = ceil_root(s);
    assert(is_ceil_root(s, c));
    if c < r {
        lemma_square_monotone(c, r - 1);
    } else if r < c {
        lemma_square_monotone(r, c - 1);
    }
}

/// Rounds toward zero, `a / d` for a positive divisor.
pub fn div_toward_zero(a: i128, d: i128) -> (q: i128)
    requires
        d > 0,
        a > i128::MIN,
    ensures
        q == tdiv(a as int, d as int),
        abs(q as int) == abs(a as int) / (d as int),
        abs(q as int) * d <= abs(a as int),
        abs(a as int) < (abs(q as int) + 1) * d,
{
    let n: i128 = if a >= 0 { a } else { -a };
    let m: i128 = n / d;
    assert(0 <= m * d <= n && n < (m + 1) * d) by (nonlinear_arith)
        requires
            m == n / d,
            n >= 0,
            d > 0,
    ;
    if a >= 0 { m } else { -m }
}

/// Bounds on the factors bound the product.
pub proof fn lemma_product_fits(a: int, b: int, d: int, ma: int, mb: int)
    requires
        abs(a) <= ma,
        abs(b) <= mb,
        ma * mb <= (i64::MAX as int) * d,
    ensures
        abs(a) * abs(b) <= (i64::MAX as int) * d,
{
    assert(abs(a) * abs(b) <= ma * mb) by (nonlinear_arith)
        requires
            0 <= abs(a) <= ma,
            0 <= abs(b) <= mb,
    ;
}

/// `a * b / d`, rounded toward zero.
pub fn mul_div(a: i64, b: i64, d: i64) -> (q: i64)
    requires
        d > 0,
        abs(a as int) * abs(b as int) <= (i64::MAX as int) * (d as int),
    ensures
        q as int == tdiv(a as int * b as int, d as int),
        abs(q as int) * d <= abs(a as int) * abs(b as int),
        abs(a as int) * abs(b as int) < (abs(q as int) + 1) * d,
{
    assert(abs(a as int) * abs(b as int) <= 0x8000_0000_0000_0000 * 0x8000_0000_0000_0000)
        by (nonlinear_arith)
        requires
            abs(a as int) <= 0x8000_0000_0000_0000,
            abs(b as int) <= 0x8000_0000_0000_0000,
            abs(a as int) >= 0,
            abs(b as int) >= 0,
    ;
    assert(abs(a as int * b as int) == abs(a as int) * abs(b as int)) by (nonlinear_arith);
    let p: i128 = a as i128 * b as i128;
    let q = div_toward_zero(p, d as i128);
    assert(abs(q as int) <= i64::MAX) by (nonlinear_arith)
        requires
            abs(q as int) * d <= abs(p as int),
            abs(p as int) <= (i64::MAX as int) * (d as int),
            d > 0,
            abs(q as int) >= 0,
    ;
    q as i64
}

/// The smallest `r` with `r * r >= s`.
pub fn ceil_sqrt(s: u64) -> (r: u64)
    ensures
        is_ceil_root(s as int, r as int),
        r as int == ceil_root(s as int),
        r <= 4_294_967_296,
{
    // Invariant: lo * lo < s <= hi * hi, or s == 0.
    if s == 0 {
        proof {
            lemma_ceil_root_unique(0, 0);
        }
        return 0;
    }
    let mut lo: u64 = 0;
    let mut hi: u64 = 4_294_967_296;
    assert(hi * hi >= s) by (nonlinear_arith)
        requires
            hi == 4_294_967_296,
            s <= u64::MAX,
    ;
    while hi - lo > 1
        invariant
            lo < hi <= 4_294_967_296,
            lo * lo < s,
            s <= hi * hi,
        decreases hi - lo,
    {
        let mid: u64 = lo + (hi - lo) / 2;
        assert(mid * mid <= 4_294_967_296 * 4_294_967_296) by (nonlinear_arith)
            requires
                mid <= 4_294_967_296,
        ;
        if (mid as u128) * (mid as u128) >= s as u128 {
            hi = mid;
        } else {
            lo = mid;
        }
    }
    proof {
        assert(hi - 1 == lo);
        lemma_ceil_root_unique(s as int, hi as int);
    }
    hi
}

} // verus!
