//! Collision shapes and the fixed-point geometry behind both collision
//! worlds: overlap tests for contact detection and ray-entry keys for
//! targeting.
//!
//! Cuboid sizes are full extents, not half-extents; tests double the
//! coordinates instead of halving the sizes, so everything stays integral.
//! Cuboids are axis-aligned: entity rotation affects rendering only.
//!
//! A ray from `near` to `far` is the segment `near + t * (far - near)`,
//! `0 <= t <= 1`. Each shape the segment meets gets an integer entry key:
//! the entry parameter `t` scaled by twice the squared segment length,
//! rounded down to the key grid. Keys of different shapes along one ray are
//! on the same scale, so the smallest key is the first shape met.

use crate::math::{spec_clamp, vec_within, Vec3, POS_LIMIT, SIZE_LIMIT};
use vstd::prelude::*;

verus! {

/// Largest magnitude a ray endpoint coordinate may take.
pub const RAY_LIMIT: i64 = 0x80000;

/// Largest magnitude a shape's world-space center coordinate may take.
pub const WORLD_LIMIT: i64 = POS_LIMIT + SIZE_LIMIT;

/// A collision shape, relative to its own center.
#[derive(Debug, Clone, Copy, PartialEq, Eq, Structural)]
pub enum ColliderShape {
    /// An axis-aligned box given by its full extents.
    Cuboid(Vec3),
    /// A sphere given by its radius.
    Sphere(i64),
}

impl ColliderShape {
    /// Extents or radius are non-negative and bounded.
    pub open spec fn wf(self) -> bool {
        match self {
            ColliderShape::Cuboid(size) => {
                &&& 0 <= size.x <= SIZE_LIMIT
                &&& 0 <= size.y <= SIZE_LIMIT
                &&& 0 <= size.z <= SIZE_LIMIT
            }
            ColliderShape::Sphere(radius) => 0 <= radius <= SIZE_LIMIT,
        }
    }
}

/// A collision shape together with its offset from the owning transform.
#[derive(Debug, Clone, Copy, PartialEq, Eq, Structural)]
pub struct Hitbox {
    pub shape: ColliderShape,
    pub offset: Vec3,
}

impl Hitbox {
    /// Shape and offset are bounded.
    pub open spec fn wf(self) -> bool {
        &&& self.shape.wf()
        &&& vec_within(self.offset, SIZE_LIMIT)
    }

    /// A hitbox with the given shape and offset.
    pub fn new(shape: ColliderShape, offset: Vec3) -> (r: Hitbox)
        ensures
            r == (Hitbox { shape, offset }),
    {
        Hitbox { shape, offset }
    }

    /// A hitbox centered on the owning transform.
    pub fn with_shape(shape: ColliderShape) -> (r: Hitbox)
        ensures
            r == (Hitbox { shape, offset: Vec3 { x: 0, y: 0, z: 0 } }),
    {
        Hitbox { shape, offset: Vec3 { x: 0, y: 0, z: 0 } }
    }
}

/// The square of `x`.
pub open spec fn sq(x: int) -> int {
    x * x
}

/// Squared distance between two points.
pub open spec fn dist_sq(a: Vec3, b: Vec3) -> int {
    sq(a.x - b.x) + sq(a.y - b.y) + sq(a.z - b.z)
}

/// `v` clamped into `[lo, hi]`.
pub open spec fn clamp_between(v: int, lo: int, hi: int) -> int {
    if v < lo {
        lo
    } else if v > hi {
        hi
    } else {
        v
    }
}

/// Two spheres overlap when their centers are no farther apart than the sum
/// of the radii; touching counts as contact.
pub open spec fn spheres_overlap(c1: Vec3, r1: int, c2: Vec3, r2: int) -> bool {
    dist_sq(c1, c2) <= sq(r1 + r2)
}

/// A sphere overlaps a box when the box point nearest the center is within
/// the radius; computed on doubled coordinates so half-extents stay integral.
pub open spec fn sphere_box_overlap(cs: Vec3, r: int, cb: Vec3, size: Vec3) -> bool {
    let px = clamp_between(2 * cs.x, 2 * cb.x - size.x, 2 * cb.x + size.x);
    let py = clamp_between(2 * cs.y, 2 * cb.y - size.y, 2 * cb.y + size.y);
    let pz = clamp_between(2 * cs.z, 2 * cb.z - size.z, 2 * cb.z + size.z);
    sq(2 * cs.x - px) + sq(2 * cs.y - py) + sq(2 * cs.z - pz) <= sq(2 * r)
}

/// Two axis-aligned boxes overlap when their extents meet on every axis.
pub open spec fn boxes_overlap(c1: Vec3, s1: Vec3, c2: Vec3, s2: Vec3) -> bool {
    &&& -(s1.x + s2.x) <= 2 * c1.x - 2 * c2.x <= s1.x + s2.x
    &&& -(s1.y + s2.y) <= 2 * c1.y - 2 * c2.y <= s1.y + s2.y
    &&& -(s1.z + s2.z) <= 2 * c1.z - 2 * c2.z <= s1.z + s2.z
}

/// Whether two placed shapes overlap.
pub open spec fn shapes_overlap(sh1: ColliderShape, c1: Vec3, sh2: ColliderShape, c2: Vec3) -> bool {
    match (sh1, sh2) {
        (ColliderShape::Sphere(r1), ColliderShape::Sphere(r2)) => spheres_overlap(
            c1,
            r1 as int,
            c2,
            r2 as int,
        ),
        (ColliderShape::Sphere(r), ColliderShape::Cuboid(s)) => sphere_box_overlap(
            c1,
            r as int,
            c2,
            s,
        ),
        (ColliderShape::Cuboid(s), ColliderShape::Sphere(r)) => sphere_box_overlap(
            c2,
            r as int,
            c1,
            s,
        ),
        (ColliderShape::Cuboid(s1), ColliderShape::Cuboid(s2)) => boxes_overlap(c1, s1, c2, s2),
    }
}

/// Product bound: factors within `ma` and `mb` keep the product within
/// `ma * mb`.
pub(crate) proof fn lemma_mul_le(a: int, b: int, ma: int, mb: int)
    by (nonlinear_arith)
    requires
        -ma <= a <= ma,
        -mb <= b <= mb,
        0 <= ma,
        0 <= mb,
    ensures
        -(ma * mb) <= a * b <= ma * mb,
{
}

/// Checks overlap of two placed shapes.
pub fn shapes_overlap_check(sh1: &ColliderShape, c1: Vec3, sh2: &ColliderShape, c2: Vec3) -> (r:
    bool)
    requires
        sh1.wf(),
        sh2.wf(),
        vec_within(c1, WORLD_LIMIT),
        vec_within(c2, WORLD_LIMIT),
    ensures
        r == shapes_overlap(*sh1, c1, *sh2, c2),
{
    match (sh1, sh2) {
        (ColliderShape::Sphere(r1), ColliderShape::Sphere(r2)) => {
            spheres_overlap_check(c1, *r1, c2, *r2)
        }
        (ColliderShape::Sphere(r), ColliderShape::Cuboid(s)) => {
            sphere_box_overlap_check(c1, *r, c2, *s)
        }
        (ColliderShape::Cuboid(s), ColliderShape::Sphere(r)) => {
            sphere_box_overlap_check(c2, *r, c1, *s)
        }
        (ColliderShape::Cuboid(s1), ColliderShape::Cuboid(s2)) => {
            boxes_overlap_check(c1, *s1, c2, *s2)
        }
    }
}

fn spheres_overlap_check(c1: Vec3, r1: i64, c2: Vec3, r2: i64) -> (r: bool)
    requires
        vec_within(c1, WORLD_LIMIT),
        vec_within(c2, WORLD_LIMIT),
        0 <= r1 <= SIZE_LIMIT,
        0 <= r2 <= SIZE_LIMIT,
    ensures
        r == spheres_overlap(c1, r1 as int, c2, r2 as int),
{
    let dx: i128 = c1.x as i128 - c2.x as i128;
    let dy: i128 = c1.y as i128 - c2.y as i128;
    let dz: i128 = c1.z as i128 - c2.z as i128;
    let rs: i128 = r1 as i128 + r2 as i128;
    proof {
        lemma_mul_le(dx as int, dx as int, 0x40000000, 0x40000000);
        lemma_mul_le(dy as int, dy as int, 0x40000000, 0x40000000);
        lemma_mul_le(dz as int, dz as int, 0x40000000, 0x40000000);
        lemma_mul_le(rs as int, rs as int, 0x200000, 0x200000);
    }
    dx * dx + dy * dy + dz * dz <= rs * rs
}

fn sphere_box_overlap_check(cs: Vec3, r: i64, cb: Vec3, size: Vec3) -> (res: bool)
    requires
        vec_within(cs, WORLD_LIMIT),
        vec_within(cb, WORLD_LIMIT),
        0 <= r <= SIZE_LIMIT,
        0 <= size.x <= SIZE_LIMIT,
        0 <= size.y <= SIZE_LIMIT,
        0 <= size.z <= SIZE_LIMIT,
    ensures
        res == sphere_box_overlap(cs, r as int, cb, size),
{
    let px: i128 = clamp_axis(cs.x, cb.x, size.x);
    let py: i128 = clamp_axis(cs.y, cb.y, size.y);
    let pz: i128 = clamp_axis(cs.z, cb.z, size.z);
    let dx: i128 = 2 * cs.x as i128 - px;
    let dy: i128 = 2 * cs.y as i128 - py;
    let dz: i128 = 2 * cs.z as i128 - pz;
    let r2: i128 = 2 * r as i128;
    proof {
        lemma_mul_le(dx as int, dx as int, 0x100000000, 0x100000000);
        lemma_mul_le(dy as int, dy as int, 0x100000000, 0x100000000);
        lemma_mul_le(dz as int, dz as int, 0x100000000, 0x100000000);
        lemma_mul_le(r2 as int, r2 as int, 0x200000, 0x200000);
    }
    dx * dx + dy * dy + dz * dz <= r2 * r2
}

/// The box point nearest the sphere center on one axis, doubled.
fn clamp_axis(cs: i64, cb: i64, size: i64) -> (r: i128)
    requires
        -WORLD_LIMIT <= cs <= WORLD_LIMIT,
        -WORLD_LIMIT <= cb <= WORLD_LIMIT,
        0 <= size <= SIZE_LIMIT,
    ensures
        r == clamp_between(2 * cs as int, 2 * cb as int - size as int, 2 * cb as int + size as int),
        -0x40000000 <= r <= 0x40000000,
{
    let v: i128 = 2 * cs as i128;
    let lo: i128 = 2 * cb as i128 - size as i128;
    let hi: i128 = 2 * cb as i128 + size as i128;
    if v < lo {
        lo
    } else if v > hi {
        hi
    } else {
        v
    }
}

fn boxes_overlap_check(c1: Vec3, s1: Vec3, c2: Vec3, s2: Vec3) -> (r: bool)
    requires
        vec_within(c1, WORLD_LIMIT),
        vec_within(c2, WORLD_LIMIT),
        0 <= s1.x <= SIZE_LIMIT,
        0 <= s1.y <= SIZE_LIMIT,
        0 <= s1.z <= SIZE_LIMIT,
        0 <= s2.x <= SIZE_LIMIT,
        0 <= s2.y <= SIZE_LIMIT,
        0 <= s2.z <= SIZE_LIMIT,
    ensures
        r == boxes_overlap(c1, s1, c2, s2),
{
    let sx: i128 = s1.x as i128 + s2.x as i128;
    let sy: i128 = s1.y as i128 + s2.y as i128;
    let sz: i128 = s1.z as i128 + s2.z as i128;
    let dx: i128 = 2 * c1.x as i128 - 2 * c2.x as i128;
    let dy: i128 = 2 * c1.y as i128 - 2 * c2.y as i128;
    let dz: i128 = 2 * c1.z as i128 - 2 * c2.z as i128;
    -sx <= dx && dx <= sx && -sy <= dy && dy <= sy && -sz <= dz && dz <= sz
}

/// `s` is the rounded-down square root of `x`.
pub open spec fn is_sqrt_floor(x: int, s: int) -> bool {
    0 <= s && s * s <= x && x < (s + 1) * (s + 1)
}

/// The rounded-down square root of `x`.
pub open spec fn sqrt_floor(x: int) -> int {
    choose|s: int| is_sqrt_floor(x, s)
}

/// Rounded-down square roots exist for every non-negative argument.
pub proof fn lemma_sqrt_floor_exists(x: int)
    requires
        0 <= x,
    ensures
        is_sqrt_floor(x, sqrt_floor(x)),
    decreases x,
{
    if x == 0 {
        assert(is_sqrt_floor(0, 0));
    } else {
        lemma_sqrt_floor_exists(x - 1);
        let s: int = sqrt_floor(x - 1);
        if (s + 1) * (s + 1) <= x {
            assert(x == (s + 1) * (s + 1));
            assert((s + 2) * (s + 2) > x) by (nonlinear_arith)
                requires
                    x == (s + 1) * (s + 1),
                    s >= 0,
            ;
            assert(is_sqrt_floor(x, s + 1));
        } else {
            assert(is_sqrt_floor(x, s));
        }
    }
}

/// Rounded-down square roots are unique.
pub proof fn lemma_sqrt_floor_unique(x: int, s1: int, s2: int)
    by (nonlinear_arith)
    requires
        is_sqrt_floor(x, s1),
        is_sqrt_floor(x, s2),
    ensures
        s1 == s2,
{
}

/// Computes the rounded-down square root by binary search.
pub fn isqrt(x: u128) -> (r: u128)
    requires
        (x as int) < 0x4000_0000_0000_0000_0000_0000_0000_0000,
    ensures
        is_sqrt_floor(x as int, r as int),
        r as int == sqrt_floor(x as int),
{
    let mut lo: u128 = 0;
    let mut hi: u128 = 0x8000_0000_0000_0000;
    proof {
        assert((hi as int + 1) * (hi as int + 1) > x as int) by (nonlinear_arith)
            requires
                hi as int == 0x8000_0000_0000_0000,
                (x as int) < 0x4000_0000_0000_0000_0000_0000_0000_0000,
        ;
    }
    while lo < hi
        invariant
            lo <= hi <= 0x8000_0000_0000_0000,
            (lo as int) * (lo as int) <= x as int,
            (x as int) < (hi as int + 1) * (hi as int + 1),
        decreases hi - lo,
    {
        let mid: u128 = lo + (hi - lo + 1) / 2;
        proof {
            lemma_mul_le(mid as int, mid as int, 0x8000_0000_0000_0000, 0x8000_0000_0000_0000);
        }
        if mid * mid <= x {
            lo = mid;
        } else {
            hi = mid - 1;
        }
    }
    proof {
        lemma_sqrt_floor_exists(x as int);
        lemma_sqrt_floor_unique(x as int, lo as int, sqrt_floor(x as int));
    }
    lo
}

/// Entry key of the segment `n -> f` against a sphere, or `None` when the
/// segment misses it. The key is `-b - ceil(sqrt(disc))` of the standard
/// quadratic, clamped at zero: the entry parameter scaled by twice the
/// squared segment length, rounded down to the key grid. A degenerate
/// segment (`n == f`) hits exactly when `n` lies inside the sphere.
pub open spec fn ray_sphere_key(c: Vec3, r: int, n: Vec3, f: Vec3) -> Option<int> {
    let dx = f.x - n.x;
    let dy = f.y - n.y;
    let dz = f.z - n.z;
    let a = dx * dx + dy * dy + dz * dz;
    let mx = n.x - c.x;
    let my = n.y - c.y;
    let mz = n.z - c.z;
    let q = mx * mx + my * my + mz * mz - r * r;
    if a == 0 {
        if q <= 0 {
            Some(0)
        } else {
            None
        }
    } else {
        let b = 2 * (dx * mx + dy * my + dz * mz);
        let disc = b * b - 4 * a * q;
        if disc < 0 {
            None
        } else {
            let s = sqrt_floor(disc);
            let sc = if s * s < disc {
                s + 1
            } else {
                s
            };
            let exit_ok = b <= 0 || q <= 0;
            let lateness = -b - 2 * a;
            let entry_ok = lateness <= 0 || disc >= lateness * lateness;
            if exit_ok && entry_ok {
                Some(
                    if -b - sc >= 0 {
                        -b - sc
                    } else {
                        0
                    },
                )
            } else {
                None
            }
        }
    }
}

/// One slab step of the box walk: narrows the entry/exit window
/// `(entry_num, entry_den, exit_num, exit_den)` by one axis, on doubled
/// coordinates. `None` means the segment already misses.
pub open spec fn slab_axis(
    st: Option<(int, int, int, int)>,
    n2: int,
    d2: int,
    lo: int,
    hi: int,
) -> Option<(int, int, int, int)> {
    match st {
        Option::None => Option::None,
        Option::Some((en, ed, xn, xd)) => {
            if d2 == 0 {
                if lo <= n2 <= hi {
                    st
                } else {
                    Option::None
                }
            } else {
                let den = if d2 > 0 {
                    d2
                } else {
                    -d2
                };
                let tin = if d2 > 0 {
                    lo - n2
                } else {
                    n2 - hi
                };
                let tout = if d2 > 0 {
                    hi - n2
                } else {
                    n2 - lo
                };
                let en2 = if tin * ed > en * den {
                    tin
                } else {
                    en
                };
                let ed2 = if tin * ed > en * den {
                    den
                } else {
                    ed
                };
                let xn2 = if tout * xd < xn * den {
                    tout
                } else {
                    xn
                };
                let xd2 = if tout * xd < xn * den {
                    den
                } else {
                    xd
                };
                Option::Some((en2, ed2, xn2, xd2))
            }
        }
    }
}

/// Whether the point `n` lies inside the box, on doubled coordinates.
pub open spec fn point_in_box(n: Vec3, cb: Vec3, size: Vec3) -> bool {
    &&& 2 * cb.x - size.x <= 2 * n.x <= 2 * cb.x + size.x
    &&& 2 * cb.y - size.y <= 2 * n.y <= 2 * cb.y + size.y
    &&& 2 * cb.z - size.z <= 2 * n.z <= 2 * cb.z + size.z
}

/// Entry key of the segment `n -> f` against an axis-aligned box, or `None`
/// when the segment misses it, by the slab walk over the three axes.
pub open spec fn ray_box_key(cb: Vec3, size: Vec3, n: Vec3, f: Vec3) -> Option<int> {
    let dx = f.x - n.x;
    let dy = f.y - n.y;
    let dz = f.z - n.z;
    let a = dx * dx + dy * dy + dz * dz;
    if a == 0 {
        if point_in_box(n, cb, size) {
            Some(0)
        } else {
            None
        }
    } else {
        let st = slab_axis(
            slab_axis(
                slab_axis(
                    Option::Some((0, 1, 1, 1)),
                    2 * n.x,
                    2 * dx,
                    2 * cb.x - size.x,
                    2 * cb.x + size.x,
                ),
                2 * n.y,
                2 * dy,
                2 * cb.y - size.y,
                2 * cb.y + size.y,
            ),
            2 * n.z,
            2 * dz,
            2 * cb.z - size.z,
            2 * cb.z + size.z,
        );
        match st {
            Option::None => Option::None,
            Option::Some((en, ed, xn, xd)) => {
                if en * xd <= xn * ed {
                    Option::Some(2 * a * en / ed)
                } else {
                    Option::None
                }
            }
        }
    }
}

/// Entry key of the segment against a placed shape.
pub open spec fn ray_shape_key(sh: ColliderShape, c: Vec3, n: Vec3, f: Vec3) -> Option<int> {
    match sh {
        ColliderShape::Sphere(r) => ray_sphere_key(c, r as int, n, f),
        ColliderShape::Cuboid(size) => ray_box_key(c, size, n, f),
    }
}

/// Checks that every coordinate is within the ray-endpoint range.
pub fn within_ray_range(v: Vec3) -> (r: bool)
    ensures
        r == vec_within(v, RAY_LIMIT),
{
    -RAY_LIMIT <= v.x && v.x <= RAY_LIMIT && -RAY_LIMIT <= v.y && v.y <= RAY_LIMIT
        && -RAY_LIMIT <= v.z && v.z <= RAY_LIMIT
}

/// Whether an executable key agrees with a spec-level key.
pub open spec fn key_eq(r: Option<i64>, s: Option<int>) -> bool {
    match (r, s) {
        (Option::Some(a), Option::Some(b)) => a as int == b,
        (Option::None, Option::None) => true,
        _ => false,
    }
}

fn ray_sphere_hit(c: Vec3, r: i64, n: Vec3, f: Vec3) -> (res: Option<i64>)
    requires
        vec_within(n, RAY_LIMIT),
        vec_within(f, RAY_LIMIT),
        vec_within(c, WORLD_LIMIT),
        0 <= r <= SIZE_LIMIT,
    ensures
        key_eq(res, ray_sphere_key(c, r as int, n, f)),
{
    let dx: i128 = f.x as i128 - n.x as i128;
    let dy: i128 = f.y as i128 - n.y as i128;
    let dz: i128 = f.z as i128 - n.z as i128;
    let mx: i128 = n.x as i128 - c.x as i128;
    let my: i128 = n.y as i128 - c.y as i128;
    let mz: i128 = n.z as i128 - c.z as i128;
    proof {
        lemma_mul_le(dx as int, dx as int, 0x100000, 0x100000);
        lemma_mul_le(dy as int, dy as int, 0x100000, 0x100000);
        lemma_mul_le(dz as int, dz as int, 0x100000, 0x100000);
        lemma_mul_le(mx as int, mx as int, 0x20000000, 0x20000000);
        lemma_mul_le(my as int, my as int, 0x20000000, 0x20000000);
        lemma_mul_le(mz as int, mz as int, 0x20000000, 0x20000000);
        lemma_mul_le(r as int, r as int, 0x100000, 0x100000);
        lemma_mul_le(dx as int, mx as int, 0x100000, 0x20000000);
        lemma_mul_le(dy as int, my as int, 0x100000, 0x20000000);
        lemma_mul_le(dz as int, mz as int, 0x100000, 0x20000000);
    }
    let a: i128 = dx * dx + dy * dy + dz * dz;
    let q: i128 = mx * mx + my * my + mz * mz - r as i128 * r as i128;
    if a == 0 {
        if q <= 0 {
            Some(0)
        } else {
            None
        }
    } else {
        let b: i128 = 2 * (dx * mx + dy * my + dz * mz);
        proof {
            lemma_mul_le(b as int, b as int, 0x20000000000000, 0x20000000000000);
            lemma_mul_le(4 * a as int, q as int, 0x100000000000, 0x1000000000000000);
        }
        let disc: i128 = b * b - 4 * a * q;
        if disc < 0 {
            None
        } else {
            let s: u128 = isqrt(disc as u128);
            proof {
                assert(s as int <= 0x40000000000000) by (nonlinear_arith)
                    requires
                        (s as int) * (s as int) <= disc as int,
                        disc as int <= 0x1000000000000000000000000000,
                        s as int >= 0,
                ;
            }
            let si: i128 = s as i128;
            proof {
                lemma_mul_le(si as int, si as int, 0x40000000000000, 0x40000000000000);
            }
            let sc: i128 = if si * si < disc {
                si + 1
            } else {
                si
            };
            let exit_ok: bool = b <= 0 || q <= 0;
            let lateness: i128 = -b - 2 * a;
            proof {
                lemma_mul_le(lateness as int, lateness as int, 0x40000000000000, 0x40000000000000);
            }
            let entry_ok: bool = lateness <= 0 || disc >= lateness * lateness;
            if exit_ok && entry_ok {
                let k: i128 = if -b - sc >= 0 {
                    -b - sc
                } else {
                    0
                };
                Some(k as i64)
            } else {
                None
            }
        }
    }
}

fn slab_axis_step(
    en: i128,
    ed: i128,
    xn: i128,
    xd: i128,
    n2: i128,
    d2: i128,
    lo: i128,
    hi: i128,
) -> (r: Option<(i128, i128, i128, i128)>)
    requires
        0 <= en <= 0x80000000,
        0 < ed <= 0x200000,
        -0x80000000 <= xn <= 0x80000000,
        0 < xd <= 0x200000,
        -0x80000000 <= n2 <= 0x80000000,
        -0x200000 <= d2 <= 0x200000,
        -0x80000000 <= lo <= 0x80000000,
        -0x80000000 <= hi <= 0x80000000,
        lo - n2 <= 0x80000000,
        n2 - hi <= 0x80000000,
        -0x80000000 <= hi - n2,
        -0x80000000 <= n2 - lo,
        hi - n2 <= 0x80000000,
        n2 - lo <= 0x80000000,
        lo - n2 >= -0x80000000,
        n2 - hi >= -0x80000000,
        xn <= xd,
        en <= 0x80000000,
    ensures
        match r {
            Option::Some((en2, ed2, xn2, xd2)) => {
                &&& slab_axis(
                    Option::Some((en as int, ed as int, xn as int, xd as int)),
                    n2 as int,
                    d2 as int,
                    lo as int,
                    hi as int,
                ) == Option::Some((en2 as int, ed2 as int, xn2 as int, xd2 as int))
                &&& 0 <= en2 <= 0x80000000
                &&& 0 < ed2 <= 0x200000
                &&& -0x80000000 <= xn2 <= 0x80000000
                &&& 0 < xd2 <= 0x200000
                &&& xn2 <= xd2
            }
            Option::None => slab_axis(
                Option::Some((en as int, ed as int, xn as int, xd as int)),
                n2 as int,
                d2 as int,
                lo as int,
                hi as int,
            ) is None,
        },
{
    if d2 == 0 {
        if lo <= n2 && n2 <= hi {
            Some((en, ed, xn, xd))
        } else {
            None
        }
    } else {
        let den: i128 = if d2 > 0 {
            d2
        } else {
            -d2
        };
        let tin: i128 = if d2 > 0 {
            lo - n2
        } else {
            n2 - hi
        };
        let tout: i128 = if d2 > 0 {
            hi - n2
        } else {
            n2 - lo
        };
        proof {
            lemma_mul_le(tin as int, ed as int, 0x80000000, 0x200000);
            lemma_mul_le(en as int, den as int, 0x80000000, 0x200000);
            lemma_mul_le(tout as int, xd as int, 0x80000000, 0x200000);
            lemma_mul_le(xn as int, den as int, 0x80000000, 0x200000);
        }
        let grow_entry: bool = tin * ed > en * den;
        let shrink_exit: bool = tout * xd < xn * den;
        let en2: i128 = if grow_entry {
            tin
        } else {
            en
        };
        let ed2: i128 = if grow_entry {
            den
        } else {
            ed
        };
        let xn2: i128 = if shrink_exit {
            tout
        } else {
            xn
        };
        let xd2: i128 = if shrink_exit {
            den
        } else {
            xd
        };
        proof {
            if grow_entry {
                assert(en2 >= 0) by (nonlinear_arith)
                    requires
                        en2 == tin,
                        tin * ed > en * den,
                        en >= 0,
                        den > 0,
                        ed > 0,
                ;
            }
            if shrink_exit {
                assert(xn2 <= xd2) by (nonlinear_arith)
                    requires
                        xn2 == tout,
                        xd2 == den,
                        tout * xd < xn * den,
                        xn <= xd,
                        den > 0,
                        xd > 0,
                ;
            }
        }
        Some((en2, ed2, xn2, xd2))
    }
}

/// Computes the entry key of the segment `n -> f` against a placed shape.
pub fn ray_shape_hit(sh: &ColliderShape, c: Vec3, n: Vec3, f: Vec3) -> (res: Option<i64>)
    requires
        sh.wf(),
        vec_within(n, RAY_LIMIT),
        vec_within(f, RAY_LIMIT),
        vec_within(c, WORLD_LIMIT),
    ensures
        key_eq(res, ray_shape_key(*sh, c, n, f)),
{
    match sh {
        ColliderShape::Sphere(r) => ray_sphere_hit(c, *r, n, f),
        ColliderShape::Cuboid(size) => ray_box_hit(c, *size, n, f),
    }
}

#[verifier::rlimit(60)]
fn ray_box_hit(cb: Vec3, size: Vec3, n: Vec3, f: Vec3) -> (res: Option<i64>)
    requires
        vec_within(n, RAY_LIMIT),
        vec_within(f, RAY_LIMIT),
        vec_within(cb, WORLD_LIMIT),
        0 <= size.x <= SIZE_LIMIT,
        0 <= size.y <= SIZE_LIMIT,
        0 <= size.z <= SIZE_LIMIT,
    ensures
        key_eq(res, ray_box_key(cb, size, n, f)),
{
    let dx: i128 = f.x as i128 - n.x as i128;
    let dy: i128 = f.y as i128 - n.y as i128;
    let dz: i128 = f.z as i128 - n.z as i128;
    proof {
        lemma_mul_le(dx as int, dx as int, 0x100000, 0x100000);
        lemma_mul_le(dy as int, dy as int, 0x100000, 0x100000);
        lemma_mul_le(dz as int, dz as int, 0x100000, 0x100000);
    }
    let a: i128 = dx * dx + dy * dy + dz * dz;
    proof {
        assert(a as int >= 0) by (nonlinear_arith)
            requires
                a as int == (dx as int) * (dx as int) + (dy as int) * (dy as int) + (dz as int) * (
                dz as int),
        ;
    }
    if a == 0 {
        let inside: bool = 2 * cb.x as i128 - size.x as i128 <= 2 * n.x as i128 && 2
            * n.x as i128 <= 2 * cb.x as i128 + size.x as i128 && 2 * cb.y as i128
            - size.y as i128 <= 2 * n.y as i128 && 2 * n.y as i128 <= 2 * cb.y as i128
            + size.y as i128 && 2 * cb.z as i128 - size.z as i128 <= 2 * n.z as i128 && 2
            * n.z as i128 <= 2 * cb.z as i128 + size.z as i128;
        if inside {
            Some(0)
        } else {
            None
        }
    } else {
        let st_x: Option<(i128, i128, i128, i128)> = slab_axis_step(
            0,
            1,
            1,
            1,
            2 * n.x as i128,
            2 * dx,
            2 * cb.x as i128 - size.x as i128,
            2 * cb.x as i128 + size.x as i128,
        );
        let (en, ed, xn, xd) = match st_x {
            Some(t) => t,
            None => {
                return None;
            }
        };
        let st_y: Option<(i128, i128, i128, i128)> = slab_axis_step(
            en,
            ed,
            xn,
            xd,
            2 * n.y as i128,
            2 * dy,
            2 * cb.y as i128 - size.y as i128,
            2 * cb.y as i128 + size.y as i128,
        );
        let (en, ed, xn, xd) = match st_y {
            Some(t) => t,
            None => {
                return None;
            }
        };
        let st_z: Option<(i128, i128, i128, i128)> = slab_axis_step(
            en,
            ed,
            xn,
            xd,
            2 * n.z as i128,
            2 * dz,
            2 * cb.z as i128 - size.z as i128,
            2 * cb.z as i128 + size.z as i128,
        );
        let (en, ed, xn, xd) = match st_z {
            Some(t) => t,
            None => {
                return None;
            }
        };
        proof {
            lemma_mul_le(en as int, xd as int, 0x80000000, 0x200000);
            lemma_mul_le(xn as int, ed as int, 0x80000000, 0x200000);
            lemma_mul_le(2 * a as int, en as int, 0x100000000000, 0x80000000);
        }
        if en * xd <= xn * ed {
            proof {
                assert(en <= ed) by (nonlinear_arith)
                    requires
                        en as int * xd as int <= xn as int * ed as int,
                        xn <= xd,
                        0 < xd <= 0x200000,
                        0 < ed <= 0x200000,
                        0 <= en,
                        -0x80000000 <= xn <= 0x80000000,
                ;
                assert(0 <= 2 * a as int * en as int) by (nonlinear_arith)
                    requires
                        a as int > 0,
                        en >= 0,
                ;
                assert(2 * a as int * en as int <= 2 * a as int * ed as int) by (nonlinear_arith)
                    requires
                        a as int > 0,
                        0 <= en <= ed,
                ;
            }
            let num: u128 = (2 * a * en) as u128;
            let den: u128 = ed as u128;
            let k: u128 = num / den;
            proof {
                assert(k as int == (2 * (a as int) * (en as int)) / (ed as int));
                assert(k as int <= 2 * (a as int)) by (nonlinear_arith)
                    requires
                        k as int == (2 * (a as int) * (en as int)) / (ed as int),
                        2 * (a as int) * (en as int) <= 2 * (a as int) * (ed as int),
                        0 <= 2 * (a as int) * (en as int),
                        0 < ed as int,
                        0 < a as int,
                ;
            }
            Some(k as i64)
        } else {
            None
        }
    }
}

} // verus!
