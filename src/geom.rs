//! Points, units and the movement integrator.
use vstd::prelude::*;
use vstd::arithmetic::div_mod::lemma_div_is_ordered;

verus! {

/// Position units per world unit.
pub const POS_SCALE: i64 = 1_000_000_000;

/// Length of a unit direction vector.
pub const DIR_SCALE: i64 = 1000;

/// Width of the play-field, in world units.
pub const WIDTH: i64 = 800;

/// Height of the play-field, in world units.
pub const HEIGHT: i64 = 600;

/// Largest magnitude of a coordinate that the simulation keeps: about two
/// billion world units, so that a difference of two positions, squared and
/// summed, fits in a `u128`.
pub const COORD_LIMIT: i64 = 2_000_000_000_000_000_000;

/// A point or vector of the plane, in position units.
#[derive(Clone, Copy, Debug, PartialEq, Eq, Structural)]
pub struct Point {
    pub x: i64,
    pub y: i64,
}

/// A coordinate that the simulation can hold.
pub open spec fn coord_ok(c: int) -> bool {
    -COORD_LIMIT <= c <= COORD_LIMIT
}

impl Point {
    pub open spec fn in_range(self) -> bool {
        coord_ok(self.x as int) && coord_ok(self.y as int)
    }

    pub fn new(x: i64, y: i64) -> (r: Point)
        ensures
            r.x == x,
            r.y == y,
    {
        Point { x, y }
    }
}

/// `c` held to the coordinates that the simulation keeps: a position
/// saturates at the edge of the representable world.
pub open spec fn clamp_coord(c: int) -> int {
    if c < -COORD_LIMIT {
        -COORD_LIMIT as int
    } else if c > COORD_LIMIT {
        COORD_LIMIT as int
    } else {
        c
    }
}

/// A coordinate `c` moved along an axis by a direction component `d` at
/// `speed` world units per second for `dt` microseconds.
pub open spec fn advanced(c: int, d: int, speed: int, dt: int) -> int {
    clamp_coord(c + d * speed * dt)
}

/// Where a mover at `pos` with direction `dir` and speed `speed` ends after
/// `dt` microseconds.
pub open spec fn integrated(pos: Point, dir: Point, speed: int, dt: int) -> Point {
    Point {
        x: advanced(pos.x as int, dir.x as int, speed, dt) as i64,
        y: advanced(pos.y as int, dir.y as int, speed, dt) as i64,
    }
}

/// Largest magnitude of a vector that can be turned into a direction.
pub const AIM_LIMIT: i64 = 4_500_000_000_000_000_000;

/// `r` is the integer square root of `n`.
pub open spec fn is_isqrt(n: int, r: int) -> bool {
    0 <= r && r * r <= n && n < (r + 1) * (r + 1)
}

/// The integer square root of `n`.
pub open spec fn isqrt_of(n: int) -> int {
    choose|r: int| #[trigger] is_isqrt(n, r)
}

proof fn lemma_isqrt_unique(n: int, a: int, b: int)
    requires
        is_isqrt(n, a),
        is_isqrt(n, b),
    ensures
        a == b,
{
    if a < b {
        assert((a + 1) * (a + 1) <= b * b) by (nonlinear_arith)
            requires
                0 <= a < b,
        ;
    } else if b < a {
        assert((b + 1) * (b + 1) <= a * a) by (nonlinear_arith)
            requires
                0 <= b < a,
        ;
    }
}

/// One component of a direction: `c` scaled to `DIR_SCALE` over the length
/// `len`, rounded toward zero.
pub open spec fn scaled_component(c: int, len: int) -> int {
    if c >= 0 {
        c * DIR_SCALE / len
    } else {
        -((-c) * DIR_SCALE / len)
    }
}

/// Aim vectors shorter than this on both axes are magnified by it before
/// they are measured, so that rounding the square root of their length stays
/// small. Magnifying a vector keeps its direction.
pub const MIN_AIM_LEN: i64 = 4_194_304;

/// The factor by which the vector `(vx, vy)` is magnified before it is
/// measured.
pub open spec fn aim_scale(vx: int, vy: int) -> int {
    if -MIN_AIM_LEN < vx < MIN_AIM_LEN && -MIN_AIM_LEN < vy < MIN_AIM_LEN {
        MIN_AIM_LEN as int
    } else {
        1
    }
}

/// The direction of the vector `(vx, vy)`: the vector, magnified by
/// `aim_scale`, with its components scaled so that it has length `DIR_SCALE`
/// (each rounded toward zero); the zero vector, which has no direction, gets
/// straight up.
pub open spec fn direction_of(vx: int, vy: int) -> Point {
    if vx == 0 && vy == 0 {
        Point { x: 0, y: DIR_SCALE }
    } else {
        let k = aim_scale(vx, vy);
        let len = isqrt_of((vx * k) * (vx * k) + (vy * k) * (vy * k));
        Point { x: scaled_component(vx * k, len) as i64, y: scaled_component(vy * k, len) as i64 }
    }
}

/// The direction from `from` toward `to`.
pub open spec fn direction_toward(from: Point, to: Point) -> Point {
    direction_of(to.x - from.x, to.y - from.y)
}

/// A direction: each component at most `DIR_SCALE` in magnitude.
pub open spec fn is_direction(d: Point) -> bool {
    -DIR_SCALE <= d.x <= DIR_SCALE && -DIR_SCALE <= d.y <= DIR_SCALE
}

/// The largest `r` with `r * r <= n`.
pub fn isqrt(n: u128) -> (r: u64)
    ensures
        is_isqrt(n as int, r as int),
        r as int == isqrt_of(n as int),
{
    let mut lo: u128 = 0;
    let mut hi: u128 = 0x1_0000_0000_0000_0000;
    while hi - lo > 1
        invariant
            lo < hi <= 0x1_0000_0000_0000_0000,
            lo * lo <= n,
            n < hi * hi,
        decreases hi - lo,
    {
        let mid: u128 = lo + (hi - lo) / 2;
        assert(mid * mid < 0x1_0000_0000_0000_0000_0000_0000_0000_0000) by (nonlinear_arith)
            requires
                mid < 0x1_0000_0000_0000_0000,
        ;
        if mid * mid <= n {
            lo = mid;
        } else {
            hi = mid;
        }
    }
    proof {
        assert(hi == lo + 1);
        lemma_isqrt_unique(n as int, lo as int, isqrt_of(n as int));
    }
    lo as u64
}

proof fn lemma_component_bounded(c: int, other: int, len: int)
    requires
        is_isqrt(c * c + other * other, len),
        len > 0,
    ensures
        -DIR_SCALE <= scaled_component(c, len) <= DIR_SCALE,
{
    let a = if c >= 0 { c } else { -c };
    assert(a * a == c * c) by (nonlinear_arith)
        requires
            a == c || a == -c,
    ;
    assert(other * other >= 0) by (nonlinear_arith);
    assert(a <= len) by (nonlinear_arith)
        requires
            a >= 0,
            len >= 0,
            a * a <= c * c + other * other,
            c * c + other * other < (len + 1) * (len + 1),
            a * a == c * c,
            other * other >= 0,
    ;
    assert(a * DIR_SCALE <= len * DIR_SCALE) by (nonlinear_arith)
        requires
            a <= len,
    ;
    lemma_div_is_ordered(a * DIR_SCALE, len * DIR_SCALE, len);
    assert((len * DIR_SCALE) / len == DIR_SCALE) by (nonlinear_arith)
        requires
            len > 0,
    ;
    assert(a * DIR_SCALE / len >= 0) by (nonlinear_arith)
        requires
            a >= 0,
            len > 0,
    ;
}

/// A direction of about unit length: its squared length lies between
/// `(DIR_SCALE - 2)^2` and `DIR_SCALE^2`.
pub open spec fn is_unit(d: Point) -> bool {
    (DIR_SCALE - 2) * (DIR_SCALE - 2) <= d.x * d.x + d.y * d.y <= DIR_SCALE * DIR_SCALE
}

proof fn lemma_quotient_bounds(a: int, len: int)
    requires
        a >= 0,
        len > 0,
    ensures
        (a * DIR_SCALE / len) >= 0,
        (a * DIR_SCALE / len) * len <= a * DIR_SCALE,
        a * DIR_SCALE < (a * DIR_SCALE / len + 1) * len,
{
    let x = a * DIR_SCALE;
    let q = x / len;
    vstd::arithmetic::div_mod::lemma_fundamental_div_mod(x, len);
    vstd::arithmetic::div_mod::lemma_mod_pos_bound(x, len);
    assert(q >= 0) by (nonlinear_arith)
        requires
            x >= 0,
            x == len * q + x % len,
            0 <= x % len < len,
    ;
    assert(q * len <= x && x < (q + 1) * len) by (nonlinear_arith)
        requires
            x == len * q + x % len,
            0 <= x % len < len,
    ;
}

/// Scaling the nonnegative `(ax, ay)` to `DIR_SCALE` over its integer square
/// root length `len` gives a vector of about unit length, once `len` is large
/// enough for the rounding to be small.
proof fn lemma_scaled_is_unit(ax: int, ay: int, len: int)
    requires
        ax >= 0,
        ay >= 0,
        is_isqrt(ax * ax + ay * ay, len),
        len >= 2 * DIR_SCALE * DIR_SCALE + 1,
    ensures
        is_unit(Point { x: (ax * DIR_SCALE / len) as i64, y: (ay * DIR_SCALE / len) as i64 }),
{
    let s = DIR_SCALE as int;
    let n = ax * ax + ay * ay;
    let qx = ax * s / len;
    let qy = ay * s / len;
    lemma_quotient_bounds(ax, len);
    lemma_quotient_bounds(ay, len);
    assert(qx * qx * (len * len) <= ax * ax * (s * s)) by (nonlinear_arith)
        requires
            0 <= qx * len <= ax * s,
            qx >= 0,
    ;
    assert(qy * qy * (len * len) <= ay * ay * (s * s)) by (nonlinear_arith)
        requires
            0 <= qy * len <= ay * s,
            qy >= 0,
    ;
    assert((qx + 1) * (qx + 1) * (len * len) > ax * ax * (s * s)) by (nonlinear_arith)
        requires
            0 <= ax * s < (qx + 1) * len,
            qx >= 0,
            len > 0,
    ;
    assert((qy + 1) * (qy + 1) * (len * len) > ay * ay * (s * s)) by (nonlinear_arith)
        requires
            0 <= ay * s < (qy + 1) * len,
            qy >= 0,
            len > 0,
    ;
    let m = qx * qx + qy * qy;
    let l2 = len * len;
    assert(m * l2 <= n * (s * s)) by (nonlinear_arith)
        requires
            qx * qx * l2 <= ax * ax * (s * s),
            qy * qy * l2 <= ay * ay * (s * s),
            m == qx * qx + qy * qy,
            n == ax * ax + ay * ay,
    ;
    assert(n * (s * s) < (len + 1) * (len + 1) * (s * s)) by (nonlinear_arith)
        requires
            n < (len + 1) * (len + 1),
            s == 1000,
    ;
    assert(m <= s * s) by (nonlinear_arith)
        requires
            m * l2 < (len + 1) * (len + 1) * (s * s),
            l2 == len * len,
            len >= 2 * s * s + 1,
            s == 1000,
            m >= 0,
    ;
    let big = (qx + 1) * (qx + 1) + (qy + 1) * (qy + 1);
    assert(big * l2 > n * (s * s)) by (nonlinear_arith)
        requires
            (qx + 1) * (qx + 1) * l2 > ax * ax * (s * s),
            (qy + 1) * (qy + 1) * l2 > ay * ay * (s * s),
            big == (qx + 1) * (qx + 1) + (qy + 1) * (qy + 1),
            n == ax * ax + ay * ay,
    ;
    assert(n * (s * s) >= l2 * (s * s)) by (nonlinear_arith)
        requires
            l2 <= n,
            s == 1000,
    ;
    assert(l2 > 0) by (nonlinear_arith)
        requires
            l2 == len * len,
            len > 0,
    ;
    assert(big > s * s) by (nonlinear_arith)
        requires
            big * l2 > l2 * (s * s),
            l2 > 0,
    ;
    assert(qx + qy <= 1414) by (nonlinear_arith)
        requires
            qx >= 0,
            qy >= 0,
            qx * qx + qy * qy <= 1_000_000,
    ;
    assert(m >= (s - 2) * (s - 2)) by (nonlinear_arith)
        requires
            big == (qx + 1) * (qx + 1) + (qy + 1) * (qy + 1),
            m == qx * qx + qy * qy,
            big > s * s,
            qx + qy <= 1414,
            s == 1000,
    ;
}

/// The magnified vector of a nonzero `(vx, vy)` is long: its integer length
/// is at least `MIN_AIM_LEN` and at least each of its components.
proof fn lemma_aim_len(vx: int, vy: int)
    requires
        vx != 0 || vy != 0,
    ensures
        ({
            let k = aim_scale(vx, vy);
            let (wx, wy) = (vx * k, vy * k);
            let len = isqrt_of(wx * wx + wy * wy);
            &&& is_isqrt(wx * wx + wy * wy, len)
            &&& len >= MIN_AIM_LEN
            &&& -len <= wx <= len
            &&& -len <= wy <= len
        }),
{
    let k = aim_scale(vx, vy);
    let wx = vx * k;
    let wy = vy * k;
    let n = wx * wx + wy * wy;
    assert(n >= 0 && wx * wx <= n && wy * wy <= n) by (nonlinear_arith)
        requires
            n == wx * wx + wy * wy,
    ;
    lemma_isqrt_exists(n);
    let len = isqrt_of(n);
    assert(-len <= wx <= len) by (nonlinear_arith)
        requires
            wx * wx <= n,
            n < (len + 1) * (len + 1),
            len >= 0,
    ;
    assert(-len <= wy <= len) by (nonlinear_arith)
        requires
            wy * wy <= n,
            n < (len + 1) * (len + 1),
            len >= 0,
    ;
    assert(wx >= MIN_AIM_LEN || wx <= -MIN_AIM_LEN || wy >= MIN_AIM_LEN || wy <= -MIN_AIM_LEN)
        by (nonlinear_arith)
        requires
            vx != 0 || vy != 0,
            wx == vx * k,
            wy == vy * k,
            k == MIN_AIM_LEN || (k == 1 && (vx >= MIN_AIM_LEN || vx <= -MIN_AIM_LEN
                || vy >= MIN_AIM_LEN || vy <= -MIN_AIM_LEN)),
    ;
}

/// The direction of `(vx, vy)` is a direction of about unit length.
pub proof fn lemma_direction_of_is_unit(vx: int, vy: int)
    ensures
        is_direction(direction_of(vx, vy)),
        is_unit(direction_of(vx, vy)),
{
    if vx != 0 || vy != 0 {
        lemma_aim_len(vx, vy);
        let k = aim_scale(vx, vy);
        let wx = vx * k;
        let wy = vy * k;
        let len = isqrt_of(wx * wx + wy * wy);
        lemma_component_bounded(wx, wy, len);
        assert(wy * wy + wx * wx == wx * wx + wy * wy);
        lemma_component_bounded(wy, wx, len);
        let ax = if wx >= 0 { wx } else { -wx };
        let ay = if wy >= 0 { wy } else { -wy };
        assert(ax * ax + ay * ay == wx * wx + wy * wy) by (nonlinear_arith)
            requires
                ax == wx || ax == -wx,
                ay == wy || ay == -wy,
        ;
        lemma_scaled_is_unit(ax, ay, len);
        let qx = ax * DIR_SCALE / len;
        let qy = ay * DIR_SCALE / len;
        let d = direction_of(vx, vy);
        assert(d.x * d.x == qx * qx) by (nonlinear_arith)
            requires
                d.x == qx || d.x == -qx,
        ;
        assert(d.y * d.y == qy * qy) by (nonlinear_arith)
            requires
                d.y == qy || d.y == -qy,
        ;
    }
}

proof fn lemma_isqrt_exists(n: int)
    requires
        n >= 0,
    ensures
        exists|r: int| #[trigger] is_isqrt(n, r),
    decreases n,
{
    if n == 0 {
        assert(is_isqrt(0, 0));
    } else {
        lemma_isqrt_exists(n - 1);
        let r = choose|r: int| #[trigger] is_isqrt(n - 1, r);
        if (r + 1) * (r + 1) <= n {
            assert(n < (r + 2) * (r + 2)) by (nonlinear_arith)
                requires
                    n - 1 < (r + 1) * (r + 1),
                    r >= 0,
            ;
            assert(is_isqrt(n, r + 1));
        } else {
            assert(is_isqrt(n, r));
        }
    }
}

fn scale_component(a: u128, negative: bool, len: u64) -> (r: i64)
    requires
        len > 0,
        a <= len,
        negative ==> a > 0,
    ensures
        r == scaled_component(if negative { -(a as int) } else { a as int }, len as int),
{
    proof {
        assert(a * DIR_SCALE <= len * DIR_SCALE) by (nonlinear_arith)
            requires
                a <= len,
        ;
        lemma_div_is_ordered(a * DIR_SCALE, len * DIR_SCALE, len as int);
        assert((len * DIR_SCALE) / (len as int) == DIR_SCALE) by (nonlinear_arith)
            requires
                len > 0,
        ;
    }
    let q: u128 = a * (DIR_SCALE as u128) / (len as u128);
    if negative {
        -(q as i64)
    } else {
        q as i64
    }
}

/// The direction from `from` toward `to` (see `direction_toward`).
pub fn aim(from: Point, to: Point) -> (d: Point)
    requires
        -AIM_LIMIT <= to.x - from.x <= AIM_LIMIT,
        -AIM_LIMIT <= to.y - from.y <= AIM_LIMIT,
    ensures
        d == direction_toward(from, to),
        is_direction(d),
        is_unit(d),
{
    let vx: i128 = to.x as i128 - from.x as i128;
    let vy: i128 = to.y as i128 - from.y as i128;
    proof {
        lemma_direction_of_is_unit(vx as int, vy as int);
    }
    if vx == 0 && vy == 0 {
        return Point { x: 0, y: DIR_SCALE };
    }
    let small = -(MIN_AIM_LEN as i128) < vx && vx < MIN_AIM_LEN as i128
        && -(MIN_AIM_LEN as i128) < vy && vy < MIN_AIM_LEN as i128;
    let k: i128 = if small { MIN_AIM_LEN as i128 } else { 1 };
    proof {
        assert(-AIM_LIMIT <= vx * k <= AIM_LIMIT && -AIM_LIMIT <= vy * k <= AIM_LIMIT)
            by (nonlinear_arith)
            requires
                -AIM_LIMIT <= vx <= AIM_LIMIT,
                -AIM_LIMIT <= vy <= AIM_LIMIT,
                k == 1 || (k == MIN_AIM_LEN && -MIN_AIM_LEN < vx < MIN_AIM_LEN
                    && -MIN_AIM_LEN < vy < MIN_AIM_LEN),
        ;
        lemma_aim_len(vx as int, vy as int);
    }
    let wx: i128 = vx * k;
    let wy: i128 = vy * k;
    let ax: u128 = if wx < 0 { (-wx) as u128 } else { wx as u128 };
    let ay: u128 = if wy < 0 { (-wy) as u128 } else { wy as u128 };
    proof {
        assert(ax * ax <= AIM_LIMIT * AIM_LIMIT && ay * ay <= AIM_LIMIT * AIM_LIMIT)
            by (nonlinear_arith)
            requires
                ax <= AIM_LIMIT,
                ay <= AIM_LIMIT,
        ;
        assert(ax * ax == wx * wx && ay * ay == wy * wy) by (nonlinear_arith)
            requires
                ax == wx || ax == -wx,
                ay == wy || ay == -wy,
        ;
    }
    let n: u128 = ax * ax + ay * ay;
    let len: u64 = isqrt(n);
    let x = scale_component(ax, wx < 0, len);
    let y = scale_component(ay, wy < 0, len);
    Point { x, y }
}

/// Moves the coordinate `c` by `d * speed * dt` (see `advanced`).
pub fn advance_coord(c: i64, d: i64, speed: u64, dt: u64) -> (r: i64)
    requires
        coord_ok(c as int),
        -DIR_SCALE <= d <= DIR_SCALE,
    ensures
        r == advanced(c as int, d as int, speed as int, dt as int),
        coord_ok(r as int),
{
    let ad: u128 = if d < 0 { (-d) as u128 } else { d as u128 };
    proof {
        assert(ad * speed <= DIR_SCALE * u64::MAX) by (nonlinear_arith)
            requires
                ad <= DIR_SCALE,
        ;
    }
    let a: u128 = ad * speed as u128;
    let cap: u128 = 2 * COORD_LIMIT as u128 + 1;
    let m: u128 = if dt == 0 || a <= cap / dt as u128 {
        proof {
            if dt > 0 {
                assert(a * dt <= cap) by (nonlinear_arith)
                    requires
                        a <= cap / (dt as u128),
                        dt > 0,
                        cap > 0,
                ;
            } else {
                assert(a * dt == 0) by (nonlinear_arith)
                    requires
                        dt == 0,
                ;
            }
        }
        a * dt as u128
    } else {
        proof {
            assert(a * dt > cap) by (nonlinear_arith)
                requires
                    a > cap / (dt as u128),
                    dt > 0,
                    cap > 0,
            ;
        }
        cap
    };
    let target: i128 = if d < 0 { c as i128 - m as i128 } else { c as i128 + m as i128 };
    proof {
        let exact = c + d * speed * dt;
        assert(m == a * dt || (m == cap && a * dt > cap));
        if d < 0 {
            assert(d * speed * dt == -(a * dt)) by (nonlinear_arith)
                requires
                    ad == -d,
                    a == ad * speed,
            ;
        } else {
            assert(d * speed * dt == a * dt) by (nonlinear_arith)
                requires
                    ad == d,
                    a == ad * speed,
            ;
        }
        assert(clamp_coord(target as int) == clamp_coord(exact));
    }
    if target < -(COORD_LIMIT as i128) {
        -COORD_LIMIT
    } else if target > COORD_LIMIT as i128 {
        COORD_LIMIT
    } else {
        target as i64
    }
}

/// A mover with direction `dir` and speed `speed` (world units per second),
/// after `dt` microseconds: `pos + dir * speed * dt`, saturated at the edge
/// of the representable world.
pub fn integrate(pos: Point, dir: Point, speed: u64, dt: u64) -> (r: Point)
    requires
        pos.in_range(),
        is_direction(dir),
    ensures
        r == integrated(pos, dir, speed as int, dt as int),
        r.in_range(),
{
    Point {
        x: advance_coord(pos.x, dir.x, speed, dt),
        y: advance_coord(pos.y, dir.y, speed, dt),
    }
}

/// Within the representable world, one integration step is exact: the
/// position moves by `direction * speed * dt` on each axis.
pub proof fn lemma_integration_exact(pos: Point, dir: Point, speed: int, dt: int)
    requires
        coord_ok(pos.x + dir.x * speed * dt),
        coord_ok(pos.y + dir.y * speed * dt),
    ensures
        integrated(pos, dir, speed, dt).x == pos.x + dir.x * speed * dt,
        integrated(pos, dir, speed, dt).y == pos.y + dir.y * speed * dt,
{
}

} // verus!
