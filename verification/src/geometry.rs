//! Fixed-point points, exact distance tests and unit steps.

use vstd::prelude::*;

verus! {

/// One length unit in fixed point.
pub const UNIT: i32 = 1_000_000;

/// Largest magnitude of a coordinate of anything that lives in the world.
pub const WORLD_LIMIT: i32 = 2_000_000_000;

/// Longest step that [`step_toward`] takes.
pub const MAX_STEP: u32 = 100_000_000;

/// A point in space. `x` and `z` span the ground plane, `y` is the elevation.
#[derive(Clone, Copy, PartialEq, Eq, Structural, Debug)]
pub struct Point {
    pub x: i32,
    pub y: i32,
    pub z: i32,
}

impl Point {
    /// Whether every coordinate lies within `margin` of the world's bounds.
    pub open spec fn within_world(self, margin: int) -> bool {
        &&& -(WORLD_LIMIT + margin) <= self.x <= WORLD_LIMIT + margin
        &&& -(WORLD_LIMIT + margin) <= self.y <= WORLD_LIMIT + margin
        &&& -(WORLD_LIMIT + margin) <= self.z <= WORLD_LIMIT + margin
    }

    /// Whether the point lies in the world.
    pub open spec fn in_world(self) -> bool {
        self.within_world(0)
    }

    /// The point with the given coordinates.
    pub fn new(x: i32, y: i32, z: i32) -> (p: Point)
        ensures
            p == (Point { x, y, z }),
    {
        Point { x, y, z }
    }

    /// Tests `in_world`.
    pub fn is_in_world(&self) -> (b: bool)
        ensures
            b == self.in_world(),
    {
        -WORLD_LIMIT <= self.x && self.x <= WORLD_LIMIT && -WORLD_LIMIT <= self.y && self.y
            <= WORLD_LIMIT && -WORLD_LIMIT <= self.z && self.z <= WORLD_LIMIT
    }
}

/// Square of the distance between two points.
pub open spec fn dist2(a: Point, b: Point) -> int {
    (a.x - b.x) * (a.x - b.x) + (a.y - b.y) * (a.y - b.y) + (a.z - b.z) * (a.z - b.z)
}

/// Square of the distance between two points on the ground plane.
pub open spec fn planar_dist2(a: Point, b: Point) -> int {
    (a.x - b.x) * (a.x - b.x) + (a.z - b.z) * (a.z - b.z)
}

proof fn lemma_square_bound(d: int)
    requires
        -0x1_0000_0000 < d < 0x1_0000_0000,
    ensures
        0 <= d * d < 0x1_0000_0000_0000_0000,
{
    assert(0 <= d * d < 0x1_0000_0000_0000_0000) by (nonlinear_arith)
        requires
            -0x1_0000_0000 < d < 0x1_0000_0000,
    ;
}

fn square_of_difference(a: i32, b: i32) -> (s: u128)
    ensures
        s == (a - b) * (a - b),
        s < 0x1_0000_0000_0000_0000,
{
    let d: i64 = a as i64 - b as i64;
    let m: u64 = if d < 0 {
        (-d) as u64
    } else {
        d as u64
    };
    proof {
        lemma_square_bound(d as int);
        assert(m * m == d * d) by (nonlinear_arith)
            requires
                m == d || m == -d,
        ;
    }
    (m as u128) * (m as u128)
}

/// Square of the distance between `a` and `b`.
pub fn distance_squared(a: Point, b: Point) -> (d: u128)
    ensures
        d == dist2(a, b),
{
    square_of_difference(a.x, b.x) + square_of_difference(a.y, b.y) + square_of_difference(
        a.z,
        b.z,
    )
}

/// Square of the distance between `a` and `b` on the ground plane.
pub fn planar_distance_squared(a: Point, b: Point) -> (d: u128)
    ensures
        d == planar_dist2(a, b),
{
    square_of_difference(a.x, b.x) + square_of_difference(a.z, b.z)
}

/// A walk of no steps has not moved, and one more step adds one stride.
pub proof fn lemma_walk_step(steps: int, stride: int)
    ensures
        0 * stride == 0,
        (steps + 1) * stride == steps * stride + stride,
{
    assert(0 * stride == 0 && (steps + 1) * stride == steps * stride + stride)
        by (nonlinear_arith);
}

proof fn lemma_square_of_opposite(d: int, e: int)
    requires
        d == -e,
    ensures
        d * d == e * e,
{
    assert(d * d == e * e) by (nonlinear_arith)
        requires
            d == -e,
    ;
}

proof fn lemma_radius_square_fits(radius: u64)
    ensures
        0 <= radius * radius <= 0xffff_ffff_ffff_ffff * 0xffff_ffff_ffff_ffff,
{
    assert(0 <= radius * radius <= 0xffff_ffff_ffff_ffff * 0xffff_ffff_ffff_ffff)
        by (nonlinear_arith)
        requires
            0 <= radius <= 0xffff_ffff_ffff_ffff,
    ;
}

/// Whether `a` and `b` are at most `radius` apart.
pub fn within(a: Point, b: Point, radius: u64) -> (r: bool)
    ensures
        r == (dist2(a, b) <= radius * radius),
{
    proof {
        lemma_radius_square_fits(radius);
    }
    distance_squared(a, b) <= (radius as u128) * (radius as u128)
}

/// Whether `a` and `b` are at most `radius` apart on the ground plane.
pub fn within_planar(a: Point, b: Point, radius: u64) -> (r: bool)
    ensures
        r == (planar_dist2(a, b) <= radius * radius),
{
    proof {
        lemma_radius_square_fits(radius);
    }
    planar_distance_squared(a, b) <= (radius as u128) * (radius as u128)
}

/// Whether `a` and `b` are less than `radius` apart on the ground plane.
pub fn closer_than_planar(a: Point, b: Point, radius: u64) -> (r: bool)
    ensures
        r == (planar_dist2(a, b) < radius * radius),
{
    proof {
        lemma_radius_square_fits(radius);
    }
    planar_distance_squared(a, b) < (radius as u128) * (radius as u128)
}

/// Whether `r` is the square root of `n`, rounded down.
pub open spec fn is_floor_sqrt(n: int, r: int) -> bool {
    0 <= r && r * r <= n < (r + 1) * (r + 1)
}

/// Square root of `n`, rounded down.
pub open spec fn floor_sqrt(n: int) -> int {
    choose|r: int| is_floor_sqrt(n, r)
}

/// Only one number is the rounded-down square root of `n`.
pub proof fn lemma_floor_sqrt_unique(n: int, r: int, s: int)
    requires
        is_floor_sqrt(n, r),
        is_floor_sqrt(n, s),
    ensures
        r == s,
{
    if r < s {
        assert((r + 1) * (r + 1) <= s * s) by (nonlinear_arith)
            requires
                0 <= r,
                r + 1 <= s,
        ;
    } else if s < r {
        assert((s + 1) * (s + 1) <= r * r) by (nonlinear_arith)
            requires
                0 <= s,
                s + 1 <= r,
        ;
    }
}

/// Square root of `n`, rounded down, for `n` below `2^68`.
pub fn isqrt(n: u128) -> (r: u64)
    requires
        n < 0x10_0000_0000_0000_0000,
    ensures
        is_floor_sqrt(n as int, r as int),
        r == floor_sqrt(n as int),
        r < 0x4_0000_0000,
{
    let mut lo: u64 = 0;
    let mut hi: u64 = 0x4_0000_0000;
    assert(0x4_0000_0000 * 0x4_0000_0000 == 0x10_0000_0000_0000_0000) by (nonlinear_arith);
    while hi - lo > 1
        invariant
            lo < hi <= 0x4_0000_0000,
            lo * lo <= n,
            n < hi * hi,
        decreases hi - lo,
    {
        let mid: u64 = lo + (hi - lo) / 2;
        assert(mid * mid <= 0x4_0000_0000 * 0x4_0000_0000) by (nonlinear_arith)
            requires
                0 <= mid <= 0x4_0000_0000,
        ;
        if (mid as u128) * (mid as u128) <= n {
            lo = mid;
        } else {
            hi = mid;
        }
    }
    proof {
        assert(is_floor_sqrt(n as int, lo as int));
        lemma_floor_sqrt_unique(n as int, lo as int, floor_sqrt(n as int));
    }
    lo
}

/// `d * step / len`, rounded toward zero.
pub open spec fn scaled(d: int, step: int, len: int) -> int {
    if d >= 0 {
        (d * step) / len
    } else {
        -(((-d) * step) / len)
    }
}

/// The point one `step` from `from` in the direction of `to`, each coordinate
/// rounded toward `from`; `from` itself where the two coincide. The length of
/// the direction is taken rounded down, so the step may pass `to` when `to` is
/// nearer than `step`.
pub open spec fn step_toward_spec(from: Point, to: Point, step: int) -> Point {
    let len = floor_sqrt(dist2(from, to));
    if len == 0 {
        from
    } else {
        Point {
            x: (from.x + scaled(to.x - from.x, step, len)) as i32,
            y: (from.y + scaled(to.y - from.y, step, len)) as i32,
            z: (from.z + scaled(to.z - from.z, step, len)) as i32,
        }
    }
}

proof fn lemma_scaled_bound(d: int, step: int, len: int)
    requires
        0 <= step,
        0 < len,
        -len <= d <= len,
    ensures
        -step <= scaled(d, step, len) <= step,
        d >= 0 ==> scaled(d, step, len) >= 0,
        d <= 0 ==> scaled(d, step, len) <= 0,
{
    let m = if d >= 0 {
        d
    } else {
        -d
    };
    assert(0 <= (m * step) / len <= step && (m == 0 ==> (m * step) / len == 0))
        by (nonlinear_arith)
        requires
            0 <= m <= len,
            0 <= step,
            0 < len,
    ;
}

fn scale_component(d: i64, step: u32, len: u64) -> (r: i64)
    requires
        -0x1_0000_0000 < d < 0x1_0000_0000,
        0 < len,
        -len <= d <= len,
    ensures
        r == scaled(d as int, step as int, len as int),
        -step <= r <= step,
        d >= 0 ==> r >= 0,
        d <= 0 ==> r <= 0,
{
    proof {
        lemma_scaled_bound(d as int, step as int, len as int);
    }
    let m: u64 = if d >= 0 {
        d as u64
    } else {
        (-d) as u64
    };
    assert(m * step < 0x1_0000_0000 * 0x1_0000_0000) by (nonlinear_arith)
        requires
            0 <= m < 0x1_0000_0000,
            0 <= step < 0x1_0000_0000,
    ;
    let q: u128 = ((m as u128) * (step as u128)) / (len as u128);
    if d >= 0 {
        q as i64
    } else {
        -(q as i64)
    }
}

proof fn lemma_component_below_length(a: int, b: int, c: int, len: int)
    requires
        is_floor_sqrt(a * a + b * b + c * c, len),
    ensures
        -len <= a <= len,
        -len <= b <= len,
        -len <= c <= len,
{
    assert(-len <= a <= len && -len <= b <= len && -len <= c <= len) by (nonlinear_arith)
        requires
            0 <= len,
            a * a + b * b + c * c < (len + 1) * (len + 1),
    ;
}

/// A step toward a point in the world from a point at most one step outside
/// it ends at most one step outside it.
pub proof fn lemma_step_stays_near(from: Point, to: Point, step: int)
    requires
        0 <= step <= MAX_STEP,
        to.in_world(),
        from.within_world(step),
    ensures
        step_toward_spec(from, to, step).within_world(step),
{
    let len = floor_sqrt(dist2(from, to));
    let dx = to.x - from.x;
    let dy = to.y - from.y;
    let dz = to.z - from.z;
    lemma_square_bound(-dx);
    lemma_square_bound(-dy);
    lemma_square_bound(-dz);
    lemma_floor_sqrt_exists(dist2(from, to));
    if len != 0 {
        lemma_square_of_opposite(dx as int, from.x - to.x);
        lemma_square_of_opposite(dy as int, from.y - to.y);
        lemma_square_of_opposite(dz as int, from.z - to.z);
        lemma_component_below_length(dx, dy, dz, len);
        lemma_scaled_bound(dx, step, len);
        lemma_scaled_bound(dy, step, len);
        lemma_scaled_bound(dz, step, len);
    }
}

/// Every number from zero up has a rounded-down square root.
pub proof fn lemma_floor_sqrt_exists(n: int)
    requires
        0 <= n,
    ensures
        is_floor_sqrt(n, floor_sqrt(n)),
    decreases n,
{
    if n == 0 {
        assert(is_floor_sqrt(0, 0));
    } else {
        lemma_floor_sqrt_exists(n - 1);
        let r = floor_sqrt(n - 1);
        if (r + 1) * (r + 1) <= n {
            assert((r + 1) * (r + 1) == n);
            assert(n < (r + 2) * (r + 2)) by (nonlinear_arith)
                requires
                    (r + 1) * (r + 1) == n,
                    0 <= r,
            ;
            assert(is_floor_sqrt(n, r + 1));
        } else {
            assert(is_floor_sqrt(n, r));
        }
    }
}

/// Moves one `step` from `from` toward `to`.
pub fn step_toward(from: Point, to: Point, step: u32) -> (p: Point)
    requires
        step <= MAX_STEP,
        to.in_world(),
        from.within_world(step as int),
    ensures
        p == step_toward_spec(from, to, step as int),
        p.within_world(step as int),
{
    let d2: u128 = distance_squared(from, to);
    proof {
        lemma_square_bound(from.x - to.x);
        lemma_square_bound(from.y - to.y);
        lemma_square_bound(from.z - to.z);
    }
    let len: u64 = isqrt(d2);
    if len == 0 {
        return from;
    }
    let dx: i64 = to.x as i64 - from.x as i64;
    let dy: i64 = to.y as i64 - from.y as i64;
    let dz: i64 = to.z as i64 - from.z as i64;
    proof {
        lemma_square_of_opposite(dx as int, from.x - to.x);
        lemma_square_of_opposite(dy as int, from.y - to.y);
        lemma_square_of_opposite(dz as int, from.z - to.z);
        lemma_component_below_length(dx as int, dy as int, dz as int, len as int);
    }
    let sx: i64 = scale_component(dx, step, len);
    let sy: i64 = scale_component(dy, step, len);
    let sz: i64 = scale_component(dz, step, len);
    Point {
        x: (from.x as i64 + sx) as i32,
        y: (from.y as i64 + sy) as i32,
        z: (from.z as i64 + sz) as i32,
    }
}

/// The push of size `magnitude` that drives `from` toward `to` along the
/// ground: the planar direction scaled to `magnitude`, each coordinate rounded
/// toward zero, with no vertical part; the zero vector where the two coincide
/// on the ground.
pub open spec fn planar_nudge_spec(from: Point, to: Point, magnitude: int) -> Point {
    let len = floor_sqrt(planar_dist2(from, to));
    if len == 0 {
        Point { x: 0, y: 0, z: 0 }
    } else {
        Point {
            x: scaled(to.x - from.x, magnitude, len) as i32,
            y: 0,
            z: scaled(to.z - from.z, magnitude, len) as i32,
        }
    }
}

/// Computes the push of size `magnitude` from `from` toward `to`.
pub fn planar_nudge(from: Point, to: Point, magnitude: u32) -> (v: Point)
    requires
        magnitude <= MAX_STEP,
    ensures
        v == planar_nudge_spec(from, to, magnitude as int),
        -magnitude <= v.x <= magnitude,
        -magnitude <= v.z <= magnitude,
        v.y == 0,
{
    let d2: u128 = planar_distance_squared(from, to);
    proof {
        lemma_square_bound(from.x - to.x);
        lemma_square_bound(from.z - to.z);
    }
    let len: u64 = isqrt(d2);
    if len == 0 {
        return Point { x: 0, y: 0, z: 0 };
    }
    let dx: i64 = to.x as i64 - from.x as i64;
    let dz: i64 = to.z as i64 - from.z as i64;
    proof {
        lemma_square_of_opposite(dx as int, from.x - to.x);
        lemma_square_of_opposite(dz as int, from.z - to.z);
        assert(0int * 0int == 0) by (nonlinear_arith);
        lemma_component_below_length(dx as int, 0, dz as int, len as int);
    }
    let sx: i64 = scale_component(dx, magnitude, len);
    let sz: i64 = scale_component(dz, magnitude, len);
    Point { x: sx as i32, y: 0, z: sz as i32 }
}

} // verus!
