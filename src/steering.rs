use vstd::prelude::*;

verus! {

/// Fixed-point scale of steering contributions: a unit of force is `SCALE`.
pub const SCALE: i128 = 1048576;

/// Bound on a coordinate difference between two positions.
pub const DELTA_BOUND: i128 = 0x2_0000_0000;

/// Bound on the size of a steering vector's component.
pub const FORCE_BOUND: i128 = 0x1000_0000_0000_0000_0000_0000_0000;

/// Bound on the size of a spring force's component.
pub const SPRING_BOUND: i128 = 0x400_0000_0000_0000_0000_0000;

/// A steering vector in fixed-point units.
#[derive(Clone, Copy, Debug, PartialEq, Eq, Structural)]
pub struct Force {
    pub x: i128,
    pub y: i128,
}

impl Force {
    pub open spec fn zero() -> Force {
        Force { x: 0, y: 0 }
    }
}

/// Quotient of `n` by a positive `den`, truncated toward zero.
pub open spec fn trunc_div(n: int, den: int) -> int {
    if n >= 0 {
        n / den
    } else {
        -((-n) / den)
    }
}

/// Contribution of one attracting point `d` (one component) at squared distance `d2`.
pub open spec fn attract_term(d: int, d2: int) -> int {
    trunc_div(d * SCALE, 1 + d2)
}

/// Contribution of one repelling point: attraction toward the opposite point.
pub open spec fn repel_term(d: int, d2: int) -> int {
    attract_term(-d, d2)
}

/// Contribution of a spring (one component `d`) whose stretch beyond its rest length is `disp`.
pub open spec fn spring_term(d: int, disp: int) -> int {
    trunc_div(d * disp * SCALE, disp * disp + 1)
}

pub open spec fn abs(a: int) -> int {
    if a >= 0 {
        a
    } else {
        -a
    }
}

/// A coordinate difference that the steering arithmetic accepts.
pub open spec fn delta_ok(d: int) -> bool {
    -DELTA_BOUND < d < DELTA_BOUND
}

pub open spec fn force_ok(f: Force) -> bool {
    -FORCE_BOUND <= f.x <= FORCE_BOUND && -FORCE_BOUND <= f.y <= FORCE_BOUND
}

/// Quotient of `n` by a positive `den`, truncated toward zero.
pub fn div_toward_zero(n: i128, den: i128) -> (r: i128)
    requires
        den > 0,
        n > i128::MIN,
    ensures
        r == trunc_div(n as int, den as int),
        abs(r as int) <= abs(n as int),
{
    if n >= 0 {
        proof {
            vstd::arithmetic::div_mod::lemma_div_is_ordered_by_denominator(n as int, 1, den as int);
        }
        n / den
    } else {
        proof {
            vstd::arithmetic::div_mod::lemma_div_is_ordered_by_denominator(-n as int, 1, den as int);
        }
        -((-n) / den)
    }
}

proof fn lemma_small_term(d: int, d2: int)
    requires
        d * d <= d2,
    ensures
        abs(attract_term(d, d2)) <= SCALE,
{
    assert(abs(d) <= 1 + d2) by (nonlinear_arith)
        requires
            d * d <= d2,
    ;
    let n = abs(d) * SCALE;
    assert(n <= (1 + d2) * SCALE) by (nonlinear_arith)
        requires
            abs(d) <= 1 + d2,
            n == abs(d) * SCALE,
    ;
    assert(abs(d * SCALE) == n) by (nonlinear_arith)
        requires
            n == abs(d) * SCALE,
    ;
    vstd::arithmetic::div_mod::lemma_div_is_ordered(n, (1 + d2) * SCALE, 1 + d2);
    vstd::arithmetic::div_mod::lemma_div_by_multiple(SCALE as int, 1 + d2);
    assert((SCALE * (1 + d2)) == (1 + d2) * SCALE) by (nonlinear_arith);
}

/// Adds to `sum` the pull of a point at offset `(dx, dy)` and squared distance `d2`:
/// `delta / (1 + d2)` in fixed point, so that a far point pulls little.
pub fn attract(sum: &mut Force, dx: i64, dy: i64, d2: i128)
    requires
        delta_ok(dx as int),
        delta_ok(dy as int),
        dx * dx <= d2,
        dy * dy <= d2,
        0 <= d2 < 0x100_0000_0000_0000_0000,
        -FORCE_BOUND + SCALE <= old(sum).x <= FORCE_BOUND - SCALE,
        -FORCE_BOUND + SCALE <= old(sum).y <= FORCE_BOUND - SCALE,
    ensures
        final(sum).x == old(sum).x + attract_term(dx as int, d2 as int),
        final(sum).y == old(sum).y + attract_term(dy as int, d2 as int),
        abs(attract_term(dx as int, d2 as int)) <= SCALE,
        abs(attract_term(dy as int, d2 as int)) <= SCALE,
{
    proof {
        lemma_small_term(dx as int, d2 as int);
        lemma_small_term(dy as int, d2 as int);
    }
    let tx = div_toward_zero(dx as i128 * SCALE, 1 + d2);
    let ty = div_toward_zero(dy as i128 * SCALE, 1 + d2);
    sum.x = sum.x + tx;
    sum.y = sum.y + ty;
}

/// Adds to `sum` the push away from a point at offset `(dx, dy)`: the pull of the
/// opposite point.
pub fn repel(sum: &mut Force, dx: i64, dy: i64, d2: i128)
    requires
        delta_ok(dx as int),
        delta_ok(dy as int),
        dx * dx <= d2,
        dy * dy <= d2,
        0 <= d2 < 0x100_0000_0000_0000_0000,
        -FORCE_BOUND + SCALE <= old(sum).x <= FORCE_BOUND - SCALE,
        -FORCE_BOUND + SCALE <= old(sum).y <= FORCE_BOUND - SCALE,
    ensures
        final(sum).x == old(sum).x + repel_term(dx as int, d2 as int),
        final(sum).y == old(sum).y + repel_term(dy as int, d2 as int),
        abs(repel_term(dx as int, d2 as int)) <= SCALE,
        abs(repel_term(dy as int, d2 as int)) <= SCALE,
{
    assert((-dx) * (-dx) == dx * dx && (-dy) * (-dy) == dy * dy) by (nonlinear_arith);
    attract(sum, -dx, -dy, d2);
}

/// Largest `r` with `r * r <= n`.
pub fn isqrt(n: i128) -> (r: i128)
    requires
        0 <= n < 0x100_0000_0000_0000_0000,
    ensures
        0 <= r,
        r * r <= n < (r + 1) * (r + 1),
{
    let mut lo: i128 = 0;
    let mut hi: i128 = 0x10_0000_0000;
    assert(n < hi * hi) by (nonlinear_arith)
        requires
            n < 0x100_0000_0000_0000_0000,
            hi == 0x10_0000_0000,
    ;
    while lo + 1 < hi
        invariant
            0 <= lo < hi <= 0x10_0000_0000,
            lo * lo <= n < hi * hi,
        decreases hi - lo,
    {
        let mid = lo + (hi - lo) / 2;
        assert(mid * mid <= 0x100_0000_0000_0000_0000) by (nonlinear_arith)
            requires
                0 <= mid <= 0x10_0000_0000,
        ;
        if mid * mid <= n {
            lo = mid;
        } else {
            hi = mid;
        }
    }
    lo
}

/// Sets `sum` to a spring force toward the point at offset `(dx, dy)` that is at rest
/// at distance `desired`: `delta * s / (s * s + 1)` with `s = |delta| - desired`, so
/// it pushes when too close, pulls when too far, and saturates far from rest.
pub fn spring(sum: &mut Force, dx: i64, dy: i64, desired: i64)
    requires
        delta_ok(dx as int),
        delta_ok(dy as int),
        0 <= desired < DELTA_BOUND,
    ensures
        final(sum).x == spring_term(dx as int, spring_stretch(dx as int, dy as int, desired as int)),
        final(sum).y == spring_term(dy as int, spring_stretch(dx as int, dy as int, desired as int)),
        -SPRING_BOUND <= final(sum).x <= SPRING_BOUND,
        -SPRING_BOUND <= final(sum).y <= SPRING_BOUND,
{
    proof {
        lemma_mul_strict(dx as int, dx as int, DELTA_BOUND as int, DELTA_BOUND as int);
        lemma_mul_strict(dy as int, dy as int, DELTA_BOUND as int, DELTA_BOUND as int);
        assert(0 <= dx * dx && 0 <= dy * dy) by (nonlinear_arith);
    }
    let d2 = dx as i128 * dx as i128 + dy as i128 * dy as i128;
    let root = isqrt(d2);
    proof {
        lemma_isqrt_unique(d2 as int, root as int);
        lemma_square_bound(desired as int, DELTA_BOUND as int);
        assert(root < 0x4_0000_0000) by (nonlinear_arith)
            requires
                root * root <= d2,
                d2 < 0x10_0000_0000_0000_0000,
                root >= 0,
        ;
    }
    let dist = if d2 > desired as i128 * desired as i128 && root * root < d2 {
        root + 1
    } else {
        root
    };
    let disp = dist - desired as i128;
    proof {
        lemma_mul_strict(disp as int, disp as int, 0x10_0000_0000, 0x10_0000_0000);
        assert(0 <= disp * disp) by (nonlinear_arith);
        lemma_mul_strict(dx as int, disp as int, DELTA_BOUND as int, 0x10_0000_0000);
        lemma_mul_strict(dy as int, disp as int, DELTA_BOUND as int, 0x10_0000_0000);
        lemma_mul_strict(dx * disp, SCALE as int, 0x20_0000_0000_0000_0000, SCALE + 1);
        lemma_mul_strict(dy * disp, SCALE as int, 0x20_0000_0000_0000_0000, SCALE + 1);
    }
    let den = disp * disp + 1;
    let nx = dx as i128 * disp * SCALE;
    let ny = dy as i128 * disp * SCALE;
    sum.x = div_toward_zero(nx, den);
    sum.y = div_toward_zero(ny, den);
}

proof fn lemma_mul_strict(a: int, b: int, ba: int, bb: int)
    requires
        -ba < a < ba,
        -bb < b < bb,
    ensures
        -(ba * bb) < a * b < ba * bb,
{
    assert(-(ba * bb) < a * b < ba * bb) by (nonlinear_arith)
        requires
            -ba < a < ba,
            -bb < b < bb,
    ;
}

/// Repelling from a point is attracting toward its opposite, and the size of an
/// attraction never grows as the squared distance grows.
pub proof fn lemma_attract_repel(d: int, d2a: int, d2b: int)
    requires
        0 <= d2a <= d2b,
    ensures
        repel_term(d, d2a) == attract_term(-d, d2a),
        repel_term(d, d2a) == -attract_term(d, d2a),
        abs(attract_term(d, d2b)) <= abs(attract_term(d, d2a)),
{
    assert((-d) * SCALE == -(d * SCALE)) by (nonlinear_arith);
    let n = abs(d * SCALE);
    vstd::arithmetic::div_mod::lemma_div_is_ordered_by_denominator(n, 1 + d2a, 1 + d2b);
    vstd::arithmetic::div_mod::lemma_div_pos_is_pos(n, 1 + d2a);
    vstd::arithmetic::div_mod::lemma_div_pos_is_pos(n, 1 + d2b);
}

/// A spring at its rest length exerts nothing; stretched it pulls toward the point
/// and compressed it pushes away, component by component. The pull or push is strict
/// on every nonzero component while the stretch is under one unit of force.
pub proof fn lemma_spring_sign(d: int, disp: int)
    ensures
        disp == 0 ==> spring_term(d, disp) == 0,
        d * disp >= 0 ==> spring_term(d, disp) >= 0,
        d * disp <= 0 ==> spring_term(d, disp) <= 0,
        d * disp > 0 && abs(disp) < SCALE ==> spring_term(d, disp) > 0,
        d * disp < 0 && abs(disp) < SCALE ==> spring_term(d, disp) < 0,
{
    if d * disp != 0 && abs(disp) < SCALE {
        let den = disp * disp + 1;
        assert(den > 0) by (nonlinear_arith)
            requires
                den == disp * disp + 1,
        ;
        assert(1 * den == den);
        let n = abs(d * disp * SCALE);
        assert(den <= n) by (nonlinear_arith)
            requires
                d * disp != 0,
                abs(disp) < SCALE,
                den == disp * disp + 1,
                n == abs(d * disp * SCALE),
                abs(disp) == if disp >= 0 { disp } else { -disp },
                n == if d * disp * SCALE >= 0 { d * disp * SCALE } else { -(d * disp * SCALE) },
        ;
        vstd::arithmetic::div_mod::lemma_div_is_ordered(den, n, den);
        vstd::arithmetic::div_mod::lemma_div_by_multiple(1, den);
    }
    let den = disp * disp + 1;
    assert(den > 0) by (nonlinear_arith)
        requires
            den == disp * disp + 1,
    ;
    assert(d * disp * SCALE == (d * disp) * SCALE) by (nonlinear_arith);
    if d * disp >= 0 {
        assert(d * disp * SCALE >= 0) by (nonlinear_arith)
            requires
                d * disp >= 0,
        ;
        vstd::arithmetic::div_mod::lemma_div_pos_is_pos(d * disp * SCALE, den);
    }
    if d * disp <= 0 {
        assert(-(d * disp * SCALE) >= 0) by (nonlinear_arith)
            requires
                d * disp <= 0,
        ;
        vstd::arithmetic::div_mod::lemma_div_pos_is_pos(-(d * disp * SCALE), den);
    }
    if disp == 0 {
        assert(d * disp * SCALE == 0) by (nonlinear_arith)
            requires
                disp == 0,
        ;
    }
}

pub proof fn lemma_square_bound(a: int, b: int)
    requires
        -b <= a <= b,
    ensures
        0 <= a * a <= b * b,
{
    assert(0 <= a * a <= b * b) by (nonlinear_arith)
        requires
            -b <= a <= b,
    ;
}

/// Floor of the square root.
pub open spec fn is_isqrt(n: int, r: int) -> bool {
    0 <= r && r * r <= n < (r + 1) * (r + 1)
}

/// How far the spring at offset `(dx, dy)` with rest length `desired` is stretched,
/// with the distance rounded down to a whole unit.
pub open spec fn spring_stretch(dx: int, dy: int, desired: int) -> int {
    rounded_distance(dx * dx + dy * dy, desired) - desired
}

/// The distance whose square is `d2`, rounded toward the rest length `desired`'s far
/// side: up when `d2` exceeds `desired` squared, down otherwise, so that it is above,
/// at or below `desired` exactly as the true distance is.
pub open spec fn rounded_distance(d2: int, desired: int) -> int {
    let f = floor_sqrt(d2);
    if d2 > desired * desired && f * f < d2 {
        f + 1
    } else {
        f
    }
}

/// The stretch of a spring has the sign of the true distance minus the rest length.
pub proof fn lemma_stretch_sign(dx: int, dy: int, desired: int)
    requires
        desired >= 0,
    ensures
        spring_stretch(dx, dy, desired) > 0 <==> dx * dx + dy * dy > desired * desired,
        spring_stretch(dx, dy, desired) == 0 <==> dx * dx + dy * dy == desired * desired,
        spring_stretch(dx, dy, desired) < 0 <==> dx * dx + dy * dy < desired * desired,
{
    let d2 = dx * dx + dy * dy;
    assert(d2 >= 0) by (nonlinear_arith)
        requires
            d2 == dx * dx + dy * dy,
    ;
    lemma_floor_sqrt_exists(d2);
    let f = floor_sqrt(d2);
    assert(is_isqrt(d2, f));
    if d2 > desired * desired {
        if f * f < d2 {
            assert(f + 1 > desired) by (nonlinear_arith)
                requires
                    d2 > desired * desired,
                    d2 < (f + 1) * (f + 1),
                    desired >= 0,
                    f >= 0,
            ;
        } else {
            assert(f > desired) by (nonlinear_arith)
                requires
                    d2 > desired * desired,
                    f * f == d2,
                    desired >= 0,
                    f >= 0,
            ;
        }
    } else if d2 == desired * desired {
        assert(f == desired) by (nonlinear_arith)
            requires
                d2 == desired * desired,
                f * f <= d2 < (f + 1) * (f + 1),
                desired >= 0,
                f >= 0,
        ;
    } else {
        assert(f < desired) by (nonlinear_arith)
            requires
                d2 < desired * desired,
                f * f <= d2,
                desired >= 0,
                f >= 0,
        ;
    }
}

proof fn lemma_floor_sqrt_exists(n: int)
    requires
        n >= 0,
    ensures
        is_isqrt(n, floor_sqrt(n)),
    decreases n,
{
    if n == 0 {
        assert(is_isqrt(0, 0));
    } else {
        lemma_floor_sqrt_exists(n - 1);
        let r = floor_sqrt(n - 1);
        if (r + 1) * (r + 1) <= n {
            assert(n < (r + 2) * (r + 2)) by (nonlinear_arith)
                requires
                    n - 1 < (r + 1) * (r + 1),
                    r >= 0,
            ;
            assert(is_isqrt(n, r + 1));
        } else {
            assert(is_isqrt(n, r));
        }
    }
}

pub open spec fn floor_sqrt(n: int) -> int {
    choose|r: int| is_isqrt(n, r)
}

proof fn lemma_isqrt_unique(n: int, r: int)
    requires
        is_isqrt(n, r),
    ensures
        floor_sqrt(n) == r,
{
    let s = floor_sqrt(n);
    assert(is_isqrt(n, s));
    if s < r {
        assert((s + 1) * (s + 1) <= r * r) by (nonlinear_arith)
            requires
                0 <= s < r,
        ;
    } else if r < s {
        assert((r + 1) * (r + 1) <= s * s) by (nonlinear_arith)
            requires
                0 <= r < s,
        ;
    }
}

} // verus!
