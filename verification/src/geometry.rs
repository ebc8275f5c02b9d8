//! Fixed-point geometry of the unit torus.
//!
//! Every real quantity of the model is held as a whole number of millionths:
//! a coordinate `c` stands for the position `c / UNIT` in `[0, 1)`.

use vstd::prelude::*;

verus! {

/// The fixed-point representation of the real number one.
pub const UNIT: u64 = 1_000_000;

/// Half the side of the habitat: the largest wrapped distance along one axis.
pub const HALF_UNIT: u64 = 500_000;

/// The wrapped separation of two coordinates along one axis: the shorter of
/// the direct way and the way across the boundary.
pub open spec fn spec_axis_delta(a: u64, b: u64) -> int {
    let direct: int = if a >= b {
        a - b
    } else {
        b - a
    };
    if direct <= UNIT - direct {
        direct
    } else {
        UNIT - direct
    }
}

/// The squared toroidal distance between `(x1, y1)` and `(x2, y2)`.
pub open spec fn spec_distance_sq(x1: u64, y1: u64, x2: u64, y2: u64) -> int {
    spec_axis_delta(x1, x2) * spec_axis_delta(x1, x2) + spec_axis_delta(y1, y2) * spec_axis_delta(
        y1,
        y2,
    )
}

/// `r` is the integer part of the square root of `n`.
pub open spec fn is_floor_sqrt(n: int, r: int) -> bool {
    0 <= r && r * r <= n && n < (r + 1) * (r + 1)
}

/// The absolute value of a signed draw.
pub open spec fn spec_magnitude(z: i64) -> int {
    if z >= 0 {
        z as int
    } else {
        -(z as int)
    }
}

/// The signed displacement that a standard deviate gives under a spread:
/// their product in fixed point, rounded towards zero.
pub open spec fn spec_offset(spread: u64, deviate: i64) -> int {
    if deviate >= 0 {
        spread * spec_magnitude(deviate) / (UNIT as int)
    } else {
        -(spread * spec_magnitude(deviate) / (UNIT as int))
    }
}

/// The coordinate reached from `origin` by a displacement of `spread` times
/// the standard deviate `deviate`, wrapped back into the habitat: the
/// remainder, never negative, of the displaced coordinate by one.
pub open spec fn spec_displace(origin: u64, spread: u64, deviate: i64) -> int {
    (origin + spec_offset(spread, deviate)) % (UNIT as int)
}

/// Without spread nothing is displaced, whatever the deviate.
pub proof fn lemma_displace_without_spread(origin: u64, deviate: i64)
    requires
        origin < UNIT,
    ensures
        spec_displace(origin, 0, deviate) == origin,
{
    assert(0 * spec_magnitude(deviate) == 0) by (nonlinear_arith);
    vstd::arithmetic::div_mod::lemma_div_basics(UNIT as int);
    vstd::arithmetic::div_mod::lemma_small_mod(origin as nat, UNIT as nat);
}

/// Wrapping a coordinate displaced forward by `m` is wrapping it displaced
/// by the part of `m` that is less than one turn; displaced backward, it is
/// wrapping it one turn ahead less that part.
pub proof fn lemma_wrap_reduces(origin: int, m: int)
    requires
        0 <= m,
    ensures
        (origin + m) % (UNIT as int) == (origin + m % (UNIT as int)) % (UNIT as int),
        (origin - m) % (UNIT as int) == (origin + UNIT - m % (UNIT as int)) % (UNIT as int),
{
    let u = UNIT as int;
    let q = m / u;
    let r = m % u;
    vstd::arithmetic::div_mod::lemma_fundamental_div_mod(m, u);
    assert(m == u * q + r);
    vstd::arithmetic::div_mod::lemma_mod_multiples_vanish(q, origin + r, u);
    assert(origin + m == u * q + (origin + r));
    vstd::arithmetic::div_mod::lemma_mod_multiples_vanish(-q - 1, origin + u - r, u);
    assert(origin - m == u * (-q - 1) + (origin + u - r)) by (nonlinear_arith)
        requires
            m == u * q + r,
    ;
}

/// The wrapped separation never exceeds half the habitat's side, whatever
/// the two coordinates are, and does not depend on their order.
pub proof fn lemma_axis_delta_bounds(a: u64, b: u64)
    requires
        a < UNIT,
        b < UNIT,
    ensures
        0 <= spec_axis_delta(a, b) <= HALF_UNIT,
        spec_axis_delta(a, b) == spec_axis_delta(b, a),
        spec_axis_delta(a, b) == 0 <==> a == b,
{
}

/// Two coordinates exactly half a side apart are at the largest possible
/// wrapped separation.
pub proof fn lemma_axis_delta_antipodal(a: u64, b: u64)
    requires
        a < UNIT,
        b < UNIT,
        a == b + HALF_UNIT || b == a + HALF_UNIT,
    ensures
        spec_axis_delta(a, b) == HALF_UNIT,
{
}

/// The squared distance is symmetric, vanishes only between equal positions
/// and is at most that of the torus's diagonal.
pub proof fn lemma_distance_sq_bounds(x1: u64, y1: u64, x2: u64, y2: u64)
    requires
        x1 < UNIT,
        y1 < UNIT,
        x2 < UNIT,
        y2 < UNIT,
    ensures
        0 <= spec_distance_sq(x1, y1, x2, y2) <= 2 * HALF_UNIT * HALF_UNIT,
        spec_distance_sq(x1, y1, x2, y2) == spec_distance_sq(x2, y2, x1, y1),
{
    let dx = spec_axis_delta(x1, x2);
    let dy = spec_axis_delta(y1, y2);
    lemma_axis_delta_bounds(x1, x2);
    lemma_axis_delta_bounds(y1, y2);
    assert(0 <= dx * dx <= 500_000 * 500_000) by (nonlinear_arith)
        requires
            0 <= dx <= 500_000,
    ;
    assert(0 <= dy * dy <= 500_000 * 500_000) by (nonlinear_arith)
        requires
            0 <= dy <= 500_000,
    ;
}

/// Comparing the integer part of a distance with a whole radius is the same
/// as comparing the squares: nothing is lost by taking the root.
pub proof fn lemma_floor_sqrt_compare(n: int, r: int, radius: int)
    requires
        is_floor_sqrt(n, r),
        0 <= radius,
    ensures
        r < radius <==> n < radius * radius,
{
    if r < radius {
        assert((r + 1) * (r + 1) <= radius * radius) by (nonlinear_arith)
            requires
                0 <= r,
                r + 1 <= radius,
        ;
    } else {
        assert(radius * radius <= r * r) by (nonlinear_arith)
            requires
                0 <= radius <= r,
        ;
    }
}

/// Computes the wrapped separation of two coordinates along one axis.
pub fn axis_delta(a: u64, b: u64) -> (r: u64)
    requires
        a < UNIT,
        b < UNIT,
    ensures
        r == spec_axis_delta(a, b),
        r <= HALF_UNIT,
{
    let direct: u64 = if a >= b {
        a - b
    } else {
        b - a
    };
    if direct <= UNIT - direct {
        direct
    } else {
        UNIT - direct
    }
}

/// Computes the squared toroidal distance between two positions.
pub fn distance_sq(x1: u64, y1: u64, x2: u64, y2: u64) -> (r: u64)
    requires
        x1 < UNIT,
        y1 < UNIT,
        x2 < UNIT,
        y2 < UNIT,
    ensures
        r == spec_distance_sq(x1, y1, x2, y2),
        r <= 2 * HALF_UNIT * HALF_UNIT,
{
    let dx: u64 = axis_delta(x1, x2);
    let dy: u64 = axis_delta(y1, y2);
    proof {
        lemma_distance_sq_bounds(x1, y1, x2, y2);
        assert(0 <= dx * dx <= 500_000 * 500_000) by (nonlinear_arith)
            requires
                0 <= dx <= 500_000,
        ;
        assert(0 <= dy * dy <= 500_000 * 500_000) by (nonlinear_arith)
            requires
                0 <= dy <= 500_000,
        ;
    }
    dx * dx + dy * dy
}

/// Computes the integer part of the square root of `n` by bisection.
pub fn floor_sqrt(n: u64) -> (r: u64)
    ensures
        is_floor_sqrt(n as int, r as int),
{
    let mut lo: u64 = 0;
    let mut hi: u64 = 4_294_967_296;
    while hi - lo > 1
        invariant
            lo < hi <= 4_294_967_296,
            lo * lo <= n,
            n < hi * hi,
        decreases hi - lo,
    {
        let mid: u64 = lo + (hi - lo) / 2;
        assert(mid * mid < 0x1_0000_0000_0000_0000) by (nonlinear_arith)
            requires
                0 <= mid < 4_294_967_296,
        ;
        if mid * mid <= n {
            lo = mid;
        } else {
            hi = mid;
        }
    }
    lo
}

/// Computes the absolute value of a signed draw, without overflow at the
/// most negative value.
pub fn magnitude(z: i64) -> (r: u64)
    ensures
        r == spec_magnitude(z),
{
    if z >= 0 {
        z as u64
    } else if z == i64::MIN {
        9_223_372_036_854_775_808
    } else {
        (-z) as u64
    }
}

/// Moves `origin` by `spread` times the standard deviate `deviate` and wraps
/// the result back into the habitat.
pub fn displace(origin: u64, spread: u64, deviate: i64) -> (r: u64)
    requires
        origin < UNIT,
    ensures
        r == spec_displace(origin, spread, deviate),
        r < UNIT,
{
    let size: u64 = magnitude(deviate);
    assert(spread * size < 0x1_0000_0000_0000_0000_0000_0000_0000_0000) by (nonlinear_arith)
        requires
            0 <= spread < 0x1_0000_0000_0000_0000,
            0 <= size < 0x1_0000_0000_0000_0000,
    ;
    let product: u128 = (spread as u128) * (size as u128);
    let shift: u64 = ((product / (UNIT as u128)) % (UNIT as u128)) as u64;
    proof {
        lemma_wrap_reduces(origin as int, spread * size / (UNIT as int));
    }
    if deviate >= 0 {
        (origin + shift) % UNIT
    } else {
        (origin + UNIT - shift) % UNIT
    }
}

} // verus!
