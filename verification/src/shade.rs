use vstd::prelude::*;

use crate::buffer::Rgb;
use crate::geometry::div_trunc;
use crate::geometry::div_trunc_i64;
use crate::geometry::lemma_abs_mul_le;
use crate::geometry::norm_sq;
use crate::geometry::sqrt_floor;
use crate::geometry::Vec3;
use crate::geometry::ONE;
use crate::mesh::Triangle;

verus! {

/// Largest vertex mantissa the shader accepts: four object-space units.
pub const TRI_LIMIT: i64 = 0x40000;

/// Unnormalized face normal: cross product of the edges from vertex 0 to
/// vertex 2 and from vertex 0 to vertex 1, in that order.
pub open spec fn raw_normal_x(t: Triangle) -> int {
    (t.vertices[2].y - t.vertices[0].y) * (t.vertices[1].z - t.vertices[0].z) - (t.vertices[2].z
        - t.vertices[0].z) * (t.vertices[1].y - t.vertices[0].y)
}

pub open spec fn raw_normal_y(t: Triangle) -> int {
    (t.vertices[2].z - t.vertices[0].z) * (t.vertices[1].x - t.vertices[0].x) - (t.vertices[2].x
        - t.vertices[0].x) * (t.vertices[1].z - t.vertices[0].z)
}

pub open spec fn raw_normal_z(t: Triangle) -> int {
    (t.vertices[2].x - t.vertices[0].x) * (t.vertices[1].y - t.vertices[0].y) - (t.vertices[2].y
        - t.vertices[0].y) * (t.vertices[1].x - t.vertices[0].x)
}

/// Face normal brought back to scale `ONE` (the raw cross product of two
/// mantissa vectors carries scale `ONE` squared).
pub open spec fn scaled_normal_x(t: Triangle) -> int {
    div_trunc(raw_normal_x(t), ONE as int)
}

pub open spec fn scaled_normal_y(t: Triangle) -> int {
    div_trunc(raw_normal_y(t), ONE as int)
}

pub open spec fn scaled_normal_z(t: Triangle) -> int {
    div_trunc(raw_normal_z(t), ONE as int)
}

/// The face's lighting intensity at scale `ONE`: the unit face normal
/// dotted with the light direction.  A face with a zero normal has no
/// direction and gets intensity zero.
pub open spec fn shade_intensity(t: Triangle, light: Vec3) -> int {
    let sx = scaled_normal_x(t);
    let sy = scaled_normal_y(t);
    let sz = scaled_normal_z(t);
    if sx == 0 && sy == 0 && sz == 0 {
        0
    } else {
        let n = sqrt_floor(sx * sx + sy * sy + sz * sz);
        let ux = div_trunc(sx * (ONE as int), n);
        let uy = div_trunc(sy * (ONE as int), n);
        let uz = div_trunc(sz * (ONE as int), n);
        div_trunc(ux * light.x + uy * light.y + uz * light.z, ONE as int)
    }
}

/// Flat shading decision for one face: normalize the face normal, dot it
/// with the light direction, cull at nonpositive intensity, and turn the
/// intensity into one grayscale channel clamped to 0..=255.
pub open spec fn shade_spec(t: Triangle, light: Vec3) -> Option<Rgb> {
    let sx = scaled_normal_x(t);
    let sy = scaled_normal_y(t);
    let sz = scaled_normal_z(t);
    if sx == 0 && sy == 0 && sz == 0 {
        Option::None
    } else {
        let intensity = shade_intensity(t, light);
        if intensity <= 0 {
            Option::None
        } else {
            let c = div_trunc(intensity * 255, ONE as int);
            let ch = if c > 255 {
                255int
            } else {
                c
            };
            Option::Some(Rgb { r: ch as u8, g: ch as u8, b: ch as u8 })
        }
    }
}

/// Every vertex mantissa of the face within magnitude `b`.
pub open spec fn tri_bounded(t: Triangle, b: int) -> bool {
    &&& t.vertices[0].bounded(b)
    &&& t.vertices[1].bounded(b)
    &&& t.vertices[2].bounded(b)
}

/// Computes the flat-shaded color of a face under the given light
/// direction: `None` exactly when the face is degenerate (zero normal) or
/// back-facing (intensity at most zero); otherwise the grayscale color of
/// `shade_spec`.
pub fn shade(t: &Triangle, light: &Vec3) -> (r: Option<Rgb>)
    requires
        tri_bounded(*t, TRI_LIMIT as int),
        light.bounded(2 * ONE as int),
    ensures
        r == shade_spec(*t, *light),
{
    let v0 = t.vertices[0];
    let v1 = t.vertices[1];
    let v2 = t.vertices[2];
    let ea = Vec3 { x: v2.x - v0.x, y: v2.y - v0.y, z: v2.z - v0.z };
    let eb = Vec3 { x: v1.x - v0.x, y: v1.y - v0.y, z: v1.z - v0.z };
    proof {
        lemma_abs_mul_le(ea.x as int, eb.y as int, 0x80000, 0x80000);
        lemma_abs_mul_le(ea.x as int, eb.z as int, 0x80000, 0x80000);
        lemma_abs_mul_le(ea.y as int, eb.x as int, 0x80000, 0x80000);
        lemma_abs_mul_le(ea.y as int, eb.z as int, 0x80000, 0x80000);
        lemma_abs_mul_le(ea.z as int, eb.x as int, 0x80000, 0x80000);
        lemma_abs_mul_le(ea.z as int, eb.y as int, 0x80000, 0x80000);
    }
    let rx: i64 = ea.y * eb.z - ea.z * eb.y;
    let ry: i64 = ea.z * eb.x - ea.x * eb.z;
    let rz: i64 = ea.x * eb.y - ea.y * eb.x;
    assert(rx == raw_normal_x(*t));
    assert(ry == raw_normal_y(*t));
    assert(rz == raw_normal_z(*t));
    let sx = div_trunc_i64(rx, ONE);
    let sy = div_trunc_i64(ry, ONE);
    let sz = div_trunc_i64(rz, ONE);
    proof {
        crate::geometry::lemma_div_trunc_bound(rx as int, ONE as int, 0x80_0000);
        crate::geometry::lemma_div_trunc_bound(ry as int, ONE as int, 0x80_0000);
        crate::geometry::lemma_div_trunc_bound(rz as int, ONE as int, 0x80_0000);
    }
    let nvec = Vec3 { x: sx, y: sy, z: sz };
    if sx == 0 && sy == 0 && sz == 0 {
        return Option::None;
    }
    let unit = match nvec.normalize() {
        Ok(u) => u,
        Err(_) => {
            return Option::None;
        },
    };
    proof {
        lemma_unit_components_bounded(nvec);
        lemma_abs_mul_le(unit.x as int, light.x as int, ONE as int, 2 * ONE as int);
        lemma_abs_mul_le(unit.y as int, light.y as int, ONE as int, 2 * ONE as int);
        lemma_abs_mul_le(unit.z as int, light.z as int, ONE as int, 2 * ONE as int);
    }
    let d = unit.scalar_mul(light);
    let intensity = div_trunc_i64(d, ONE);
    if intensity <= 0 {
        return Option::None;
    }
    proof {
        lemma_abs_mul_le(intensity as int, 255, 0x1000_0000_0000, 255);
    }
    let c = div_trunc_i64(intensity * 255, ONE);
    let ch: u8 = if c > 255 {
        255
    } else {
        c as u8
    };
    Option::Some(Rgb { r: ch, g: ch, b: ch })
}

/// Each component of the normalized vector has magnitude at most `ONE`:
/// a single component squared never exceeds the squared norm.
proof fn lemma_unit_components_bounded(v: Vec3)
    requires
        v.bounded(crate::geometry::COORD_LIMIT as int),
        !v.is_zero(),
    ensures
        ({
            let n = sqrt_floor(norm_sq(v));
            &&& n >= 1
            &&& -(ONE as int) <= div_trunc(v.x * (ONE as int), n) <= ONE as int
            &&& -(ONE as int) <= div_trunc(v.y * (ONE as int), n) <= ONE as int
            &&& -(ONE as int) <= div_trunc(v.z * (ONE as int), n) <= ONE as int
        }),
{
    lemma_square_nonneg_all(v.x as int, v.y as int, v.z as int);
    assert(norm_sq(v) >= 1);
    crate::geometry::lemma_sqrt_floor_bounds(norm_sq(v));
    let n = sqrt_floor(norm_sq(v));
    assert(n >= 1) by {
        if n == 0 {
            assert((n + 1) * (n + 1) == 1) by (nonlinear_arith)
                requires
                    n == 0,
            ;
        }
    }
    lemma_component_le_norm(v.x as int, v.y as int, v.z as int, n);
    lemma_component_le_norm(v.y as int, v.x as int, v.z as int, n);
    lemma_component_le_norm(v.z as int, v.x as int, v.y as int, n);
    lemma_scaled_div_bounded(v.x as int, n);
    lemma_scaled_div_bounded(v.y as int, n);
    lemma_scaled_div_bounded(v.z as int, n);
}

proof fn lemma_square_nonneg_all(a: int, b: int, c: int)
    by (nonlinear_arith)
    ensures
        a * a >= 0,
        b * b >= 0,
        c * c >= 0,
        a != 0 || b != 0 || c != 0 ==> a * a + b * b + c * c >= 1,
{
}

/// A component is no longer than the vector: `|a| <= n` when
/// `n = sqrt_floor(a^2 + b^2 + c^2)`.
proof fn lemma_component_le_norm(a: int, b: int, c: int, n: int)
    by (nonlinear_arith)
    requires
        n >= 0,
        a * a + b * b + c * c < (n + 1) * (n + 1),
    ensures
        -n <= a <= n,
{
}

/// Dividing `a * ONE` by `n >= |a|` stays within `ONE`.
proof fn lemma_scaled_div_bounded(a: int, n: int)
    requires
        n >= 1,
        -n <= a <= n,
    ensures
        -(ONE as int) <= div_trunc(a * (ONE as int), n) <= ONE as int,
{
    if a >= 0 {
        assert(a * (ONE as int) <= n * (ONE as int)) by (nonlinear_arith)
            requires
                0 <= a <= n,
        ;
        assert(0 <= (a * (ONE as int)) / n <= ONE as int) by (nonlinear_arith)
            requires
                n >= 1,
                0 <= a * (ONE as int) <= n * (ONE as int),
        ;
    } else {
        assert((-a) * (ONE as int) <= n * (ONE as int)) by (nonlinear_arith)
            requires
                0 <= -a <= n,
        ;
        assert(0 <= ((-a) * (ONE as int)) / n <= ONE as int) by (nonlinear_arith)
            requires
                n >= 1,
                0 <= (-a) * (ONE as int) <= n * (ONE as int),
        ;
        assert(crate::geometry::abs_int(a * (ONE as int)) == (-a) * (ONE as int))
            by (nonlinear_arith)
            requires
                a < 0,
        ;
    }
}

} // verus!
