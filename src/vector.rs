//! Fixed-point vectors and their normalization.
//!
//! Positions are measured in thousandths of a world unit; headings are
//! measured so that a unit vector has length `ONE`.
use vstd::prelude::*;

verus! {

/// The length of a unit heading.
pub const ONE: i64 = 1_000_000;

/// Accumulators are halved until both components stay below this bound
/// before they are normalized.
pub const REDUCE_LIMIT: i128 = 1_099_511_627_776;

/// A two-dimensional vector of fixed-point components.
#[derive(Clone, Copy, Debug, PartialEq, Eq, Structural)]
pub struct Vec2 {
    pub x: i64,
    pub y: i64,
}

impl Vec2 {
    pub fn new(x: i64, y: i64) -> (r: Vec2)
        ensures
            r.x == x,
            r.y == y,
    {
        Vec2 { x, y }
    }
}

/// `r` is the integer square root of `n`.
pub open spec fn is_root(r: int, n: int) -> bool {
    0 <= r && r * r <= n < (r + 1) * (r + 1)
}

/// The integer square root (the largest `r` with `r * r <= n`).
pub open spec fn isqrt(n: int) -> int {
    choose|r: int| #[trigger] is_root(r, n)
}

pub proof fn lemma_root_unique(r1: int, r2: int, n: int)
    requires
        is_root(r1, n),
        is_root(r2, n),
    ensures
        r1 == r2,
{
    if r1 < r2 {
        assert((r1 + 1) * (r1 + 1) <= r2 * r2) by (nonlinear_arith)
            requires
                0 <= r1 + 1 <= r2,
        ;
    } else if r2 < r1 {
        assert((r2 + 1) * (r2 + 1) <= r1 * r1) by (nonlinear_arith)
            requires
                0 <= r2 + 1 <= r1,
        ;
    }
}

pub proof fn lemma_isqrt(r: int, n: int)
    requires
        is_root(r, n),
    ensures
        isqrt(n) == r,
{
    assert(is_root(isqrt(n), n));
    lemma_root_unique(r, isqrt(n), n);
}

/// Integer square root by bisection.
pub fn int_sqrt(n: u64) -> (r: u64)
    ensures
        r == isqrt(n as int),
        is_root(r as int, n as int),
{
    let mut lo: u64 = 0;
    let mut hi: u64 = 4_294_967_296;
    assert(hi * hi > n) by (nonlinear_arith)
        requires
            hi == 4_294_967_296,
            n <= u64::MAX,
    ;
    while lo + 1 < hi
        invariant
            lo < hi <= 4_294_967_296,
            lo * lo <= n,
            n < hi * hi,
        decreases hi - lo,
    {
        let mid: u64 = lo + (hi - lo) / 2;
        assert(mid * mid <= u64::MAX) by (nonlinear_arith)
            requires
                mid < 4_294_967_296,
        ;
        if mid * mid <= n {
            lo = mid;
        } else {
            hi = mid;
        }
    }
    assert(lo + 1 == hi);
    proof {
        lemma_isqrt(lo as int, n as int);
    }
    lo
}


pub open spec fn abs(v: int) -> int {
    if v >= 0 { v } else { -v }
}

/// Halving that rounds toward zero, so that it commutes with negation.
pub open spec fn halve(v: int) -> int {
    if v >= 0 { v / 2 } else { -((-v) / 2) }
}

/// The vector halved (per component, toward zero) until both components
/// lie strictly inside `REDUCE_LIMIT`.
pub open spec fn reduce(x: int, y: int) -> (int, int)
    decreases abs(x) + abs(y),
{
    if abs(x) < REDUCE_LIMIT && abs(y) < REDUCE_LIMIT {
        (x, y)
    } else {
        reduce(halve(x), halve(y))
    }
}

/// One component of a normalized vector: its sign, and the root of the
/// fraction of `ONE * ONE` that its square holds of the squared length.
pub open spec fn unit_axis(c: int, len_sq: int) -> int {
    let m = isqrt((ONE * ONE * (c * c)) / len_sq);
    if c >= 0 { m } else { -m }
}

/// The vector scaled to length `ONE` (up to rounding); the zero vector
/// stays zero.
pub open spec fn normalized(x: int, y: int) -> (int, int) {
    let r = reduce(x, y);
    let len_sq = r.0 * r.0 + r.1 * r.1;
    if len_sq == 0 {
        (0, 0)
    } else {
        (unit_axis(r.0, len_sq), unit_axis(r.1, len_sq))
    }
}

/// A heading is a unit heading when its squared length lies within
/// `4 * ONE + 1` below `ONE * ONE`.
pub open spec fn is_unit(x: int, y: int) -> bool {
    ONE * ONE - 4 * ONE - 1 <= x * x + y * y <= ONE * ONE
}

pub proof fn lemma_reduce_nonzero(x: int, y: int)
    requires
        x != 0 || y != 0,
    ensures
        reduce(x, y).0 != 0 || reduce(x, y).1 != 0,
        abs(reduce(x, y).0) < REDUCE_LIMIT,
        abs(reduce(x, y).1) < REDUCE_LIMIT,
    decreases abs(x) + abs(y),
{
    if !(abs(x) < REDUCE_LIMIT && abs(y) < REDUCE_LIMIT) {
        lemma_reduce_nonzero(halve(x), halve(y));
    }
}

proof fn lemma_axis_bounds(c: int, len_sq: int, a: int)
    requires
        len_sq > 0,
        a == (ONE * ONE * (c * c)) / len_sq,
    ensures
        a * len_sq <= ONE * ONE * (c * c) < (a + 1) * len_sq,
        a >= 0,
{
    assert(ONE * ONE * (c * c) >= 0) by (nonlinear_arith);
    vstd::arithmetic::div_mod::lemma_fundamental_div_mod(ONE * ONE * (c * c), len_sq);
    vstd::arithmetic::div_mod::lemma_mod_pos_bound(ONE * ONE * (c * c), len_sq);
    vstd::arithmetic::div_mod::lemma_div_pos_is_pos(ONE * ONE * (c * c), len_sq);
    assert(a * len_sq == len_sq * a) by (nonlinear_arith);
    assert((a + 1) * len_sq == a * len_sq + len_sq) by (nonlinear_arith);
}

/// A nonzero vector normalizes to a unit heading.
pub proof fn lemma_normalized_is_unit(x: int, y: int)
    requires
        x != 0 || y != 0,
    ensures
        is_unit(normalized(x, y).0, normalized(x, y).1),
{
    lemma_reduce_nonzero(x, y);
    let r = reduce(x, y);
    let cx = r.0;
    let cy = r.1;
    let len_sq = cx * cx + cy * cy;
    assert(len_sq > 0) by (nonlinear_arith)
        requires
            cx != 0 || cy != 0,
            len_sq == cx * cx + cy * cy,
    ;
    let k = ONE * ONE;
    let ax = (k * (cx * cx)) / len_sq;
    let ay = (k * (cy * cy)) / len_sq;
    lemma_axis_bounds(cx, len_sq, ax);
    lemma_axis_bounds(cy, len_sq, ay);
    assert(is_root(isqrt(ax), ax)) by {
        isqrt_exists(ax);
    }
    assert(is_root(isqrt(ay), ay)) by {
        isqrt_exists(ay);
    }
    let hx = isqrt(ax);
    let hy = isqrt(ay);
    assert(k * (cx * cx) + k * (cy * cy) == k * len_sq) by (nonlinear_arith)
        requires
            len_sq == cx * cx + cy * cy,
    ;
    assert(ax + ay <= k && ax + ay + 2 > k) by (nonlinear_arith)
        requires
            ax * len_sq <= k * (cx * cx) < (ax + 1) * len_sq,
            ay * len_sq <= k * (cy * cy) < (ay + 1) * len_sq,
            k * (cx * cx) + k * (cy * cy) == k * len_sq,
            len_sq > 0,
    ;
    assert(hx <= ONE && hy <= ONE) by (nonlinear_arith)
        requires
            hx >= 0,
            hy >= 0,
            hx * hx <= ax,
            hy * hy <= ay,
            ax >= 0,
            ay >= 0,
            ax + ay <= ONE * ONE,
    ;
    assert(ax <= hx * hx + 2 * hx && ay <= hy * hy + 2 * hy) by (nonlinear_arith)
        requires
            ax < (hx + 1) * (hx + 1),
            ay < (hy + 1) * (hy + 1),
    ;
    lemma_square_of_signed(unit_axis(cx, len_sq), hx);
    lemma_square_of_signed(unit_axis(cy, len_sq), hy);
}

proof fn lemma_square_of_signed(u: int, m: int)
    requires
        u == m || u == -m,
    ensures
        u * u == m * m,
{
    assert(u * u == m * m) by (nonlinear_arith)
        requires
            u == m || u == -m,
    ;
}

/// Every nonnegative integer has an integer square root.
pub proof fn isqrt_exists(n: int)
    requires
        n >= 0,
    ensures
        exists|r: int| #[trigger] is_root(r, n),
    decreases n,
{
    if n == 0 {
        assert(is_root(0, 0));
    } else {
        isqrt_exists(n - 1);
        let r = choose|r: int| #[trigger] is_root(r, n - 1);
        if (r + 1) * (r + 1) <= n {
            assert(n < (r + 2) * (r + 2)) by (nonlinear_arith)
                requires
                    n - 1 < (r + 1) * (r + 1),
                    r >= 0,
            ;
            assert(is_root(r + 1, n));
        } else {
            assert(is_root(r, n));
        }
    }
}


fn halve_exec(v: i128) -> (r: i128)
    requires
        v > i128::MIN,
    ensures
        r == halve(v as int),
        r > i128::MIN,
{
    if v >= 0 {
        v / 2
    } else {
        -((-v) / 2)
    }
}

fn abs_exec(v: i128) -> (r: u128)
    requires
        v > i128::MIN,
    ensures
        r == abs(v as int),
{
    if v >= 0 {
        v as u128
    } else {
        (-v) as u128
    }
}

fn unit_axis_exec(c: i128, len_sq: u128) -> (r: i64)
    requires
        abs(c as int) < REDUCE_LIMIT,
        c * c <= len_sq,
        0 < len_sq < 0x4_0000_0000_0000_0000_0000,
    ensures
        r == unit_axis(c as int, len_sq as int),
        -ONE <= r <= ONE,
{
    let a = abs_exec(c);
    let k: u128 = 1_000_000_000_000;
    assert(k == ONE * ONE);
    proof {
        lemma_square_of_signed(c as int, a as int);
        assert(a * a < 0x1_0000_0000_0000_0000_0000) by (nonlinear_arith)
            requires
                a < REDUCE_LIMIT,
        ;
        assert(k * (a * a) <= k * 0x1_0000_0000_0000_0000_0000) by (nonlinear_arith)
            requires
                k >= 0,
                a * a < 0x1_0000_0000_0000_0000_0000,
        ;
    }
    let q: u128 = k * (a * a) / len_sq;
    proof {
        let num: int = k * (a * a);
        let top: int = k * len_sq;
        assert(num <= top) by (nonlinear_arith)
            requires
                num == k * (a * a),
                top == k * len_sq,
                a * a <= len_sq,
                k >= 0,
        ;
        assert(q == num / (len_sq as int));
        vstd::arithmetic::div_mod::lemma_div_is_ordered(num, top, len_sq as int);
        assert(top == len_sq * k) by (nonlinear_arith)
            requires
                top == k * len_sq,
        ;
        vstd::arithmetic::div_mod::lemma_div_multiples_vanish(k as int, len_sq as int);
    }
    let m = int_sqrt(q as u64);
    proof {
        assert(m <= ONE) by (nonlinear_arith)
            requires
                m * m <= q,
                q <= 1_000_000_000_000,
                m >= 0,
        ;
    }
    if c >= 0 {
        m as i64
    } else {
        -(m as i64)
    }
}

/// Normalizes a vector to length `ONE`; the zero vector is returned as is.
pub fn normalize(x: i128, y: i128) -> (r: Vec2)
    requires
        x > i128::MIN,
        y > i128::MIN,
    ensures
        (r.x as int, r.y as int) == normalized(x as int, y as int),
        -ONE <= r.x <= ONE,
        -ONE <= r.y <= ONE,
{
    let mut cx = x;
    let mut cy = y;
    while !(abs_exec(cx) < REDUCE_LIMIT as u128 && abs_exec(cy) < REDUCE_LIMIT as u128)
        invariant
            cx > i128::MIN,
            cy > i128::MIN,
            reduce(cx as int, cy as int) == reduce(x as int, y as int),
        decreases abs(cx as int) + abs(cy as int),
    {
        cx = halve_exec(cx);
        cy = halve_exec(cy);
    }
    let ax = abs_exec(cx);
    let ay = abs_exec(cy);
    proof {
        lemma_square_of_signed(cx as int, ax as int);
        lemma_square_of_signed(cy as int, ay as int);
        assert(ax * ax + ay * ay < 0x4_0000_0000_0000_0000_0000) by (nonlinear_arith)
            requires
                ax < REDUCE_LIMIT,
                ay < REDUCE_LIMIT,
        ;
    }
    let len_sq: u128 = ax * ax + ay * ay;
    if len_sq == 0 {
        return Vec2 { x: 0, y: 0 };
    }
    proof {
        assert(cx * cx >= 0 && cy * cy >= 0) by (nonlinear_arith);
    }
    Vec2 { x: unit_axis_exec(cx, len_sq), y: unit_axis_exec(cy, len_sq) }
}

} // verus!
