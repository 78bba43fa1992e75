use tinyrenderer::geometry::div_trunc_i64;
use tinyrenderer::geometry::isqrt;
use tinyrenderer::geometry::mul_div_trunc;
use tinyrenderer::geometry::RenderError;
use tinyrenderer::geometry::Vec3;
use tinyrenderer::geometry::Vec3i;
use tinyrenderer::geometry::ONE;
use tinyrenderer::mesh::to_simple_mesh;

#[test]
fn dot_concrete_and_symmetric() {
    let a = Vec3 { x: 1, y: 2, z: 3 };
    let b = Vec3 { x: 4, y: 5, z: 6 };
    assert_eq!(a.scalar_mul(&b), 32);
    assert_eq!(a.scalar_mul(&b), b.scalar_mul(&a));
}

#[test]
fn cross_concrete_and_antisymmetric() {
    let a = Vec3 { x: 1, y: 0, z: 0 };
    let b = Vec3 { x: 0, y: 1, z: 0 };
    let ab = Vec3::cross(&a, &b);
    assert_eq!(ab, Vec3 { x: 0, y: 0, z: 1 });
    let ba = Vec3::cross(&b, &a);
    assert_eq!(ba, Vec3 { x: 0, y: 0, z: -1 });
    let c = Vec3 { x: 7, y: -3, z: 11 };
    let d = Vec3 { x: -2, y: 5, z: 13 };
    let cd = Vec3::cross(&c, &d);
    let dc = Vec3::cross(&d, &c);
    assert_eq!(cd, Vec3 { x: -dc.x, y: -dc.y, z: -dc.z });
}

#[test]
fn norm_pythagorean() {
    let v = Vec3 { x: 3, y: 4, z: 0 };
    assert_eq!(v.norm(), 5);
    let z = Vec3 { x: 0, y: 0, z: 0 };
    assert_eq!(z.norm(), 0);
}

#[test]
fn isqrt_exact_values() {
    assert_eq!(isqrt(0), 0);
    assert_eq!(isqrt(1), 1);
    assert_eq!(isqrt(15), 3);
    assert_eq!(isqrt(16), 4);
    assert_eq!(isqrt(u64::MAX), 4294967295);
}

#[test]
fn normalize_rejects_zero_vector() {
    let z = Vec3 { x: 0, y: 0, z: 0 };
    assert_eq!(z.normalize(), Err(RenderError::DegenerateVector));
}

#[test]
fn normalize_axis_vector_is_exact() {
    let v = Vec3 { x: 3 * ONE, y: 0, z: 0 };
    let u = v.normalize().unwrap();
    assert_eq!(u, Vec3 { x: ONE, y: 0, z: 0 });
    let w = Vec3 { x: 0, y: 0, z: -3 * ONE };
    let uw = w.normalize().unwrap();
    assert_eq!(uw, Vec3 { x: 0, y: 0, z: -ONE });
}

#[test]
fn normalize_keeps_direction() {
    let v = Vec3 { x: 1, y: 1, z: 0 };
    // The norm of (1, 1, 0) truncates to 1, so each nonzero component
    // scales to exactly ONE.
    let u = v.normalize().unwrap();
    assert_eq!(u, Vec3 { x: ONE, y: ONE, z: 0 });
    let n = Vec3 { x: -5 * ONE, y: 0, z: 5 * ONE };
    let un = n.normalize().unwrap();
    assert!(un.x < 0 && un.y == 0 && un.z > 0);
    assert_eq!(-un.x, un.z);
}

#[test]
fn fixed_point_componentwise_ops() {
    let a = Vec3 { x: 2 * ONE, y: -ONE, z: 0 };
    let b = Vec3 { x: 3 * ONE, y: ONE, z: 5 };
    assert_eq!(a.add(&b), Vec3 { x: 5 * ONE, y: 0, z: 5 });
    assert_eq!(a.sub(&b), Vec3 { x: -ONE, y: -2 * ONE, z: -5 });
    let m = a.mul(&b);
    assert_eq!(m, Vec3 { x: 6 * ONE, y: -ONE, z: 0 });
    let s = a.scale(ONE / 2);
    assert_eq!(s, Vec3 { x: ONE, y: -ONE / 2, z: 0 });
    let d = Vec3 { x: 6 * ONE, y: 0, z: -2 * ONE }.div_scalar(2 * ONE);
    assert_eq!(d, Vec3 { x: 3 * ONE, y: 0, z: -ONE });
}

#[test]
fn truncating_division_signs() {
    assert_eq!(div_trunc_i64(7, 2), 3);
    assert_eq!(div_trunc_i64(-7, 2), -3);
    assert_eq!(div_trunc_i64(7, -2), -3);
    assert_eq!(div_trunc_i64(-7, -2), 3);
    assert_eq!(mul_div_trunc(-3, 5, 4), -3);
    assert_eq!(mul_div_trunc(3, 5, 4), 3);
}

#[test]
fn screen_vector_ops() {
    let a = Vec3i { x: 10, y: 20, z: 30 };
    let b = Vec3i { x: 1, y: 2, z: 3 };
    assert_eq!(a.add(&b), Vec3i { x: 11, y: 22, z: 33 });
    assert_eq!(a.sub(&b), Vec3i { x: 9, y: 18, z: 27 });
    assert_eq!(a.mul(&b), Vec3i { x: 10, y: 40, z: 90 });
}

#[test]
fn mesh_adapter_single_triangle() {
    let positions: Vec<i64> = vec![0, 0, 0, ONE, 0, 0, 0, ONE, 0];
    let indices: Vec<u32> = vec![0, 1, 2];
    let mesh = to_simple_mesh(&positions, &indices).unwrap();
    assert_eq!(mesh.triangles.len(), 1);
    let t = &mesh.triangles[0];
    assert_eq!(t.vertices[0], Vec3 { x: 0, y: 0, z: 0 });
    assert_eq!(t.vertices[1], Vec3 { x: ONE, y: 0, z: 0 });
    assert_eq!(t.vertices[2], Vec3 { x: 0, y: ONE, z: 0 });
}

#[test]
fn mesh_adapter_rejects_ragged_indices() {
    let positions: Vec<i64> = vec![0, 0, 0, ONE, 0, 0, 0, ONE, 0];
    let indices: Vec<u32> = vec![0, 1];
    assert_eq!(
        to_simple_mesh(&positions, &indices).err(),
        Some(RenderError::MalformedMesh)
    );
}

#[test]
fn mesh_adapter_rejects_ragged_positions() {
    let positions: Vec<i64> = vec![0, 0, 0, ONE];
    let indices: Vec<u32> = vec![0, 1, 2];
    assert_eq!(
        to_simple_mesh(&positions, &indices).err(),
        Some(RenderError::MalformedMesh)
    );
}

#[test]
fn mesh_adapter_rejects_out_of_range_index() {
    let positions: Vec<i64> = vec![0, 0, 0, ONE, 0, 0, 0, ONE, 0];
    let indices: Vec<u32> = vec![0, 1, 3];
    assert_eq!(
        to_simple_mesh(&positions, &indices).err(),
        Some(RenderError::MalformedMesh)
    );
}

#[test]
fn normalize_yields_a_near_unit_vector() {
    let v = Vec3 { x: 3 * ONE, y: 4 * ONE, z: 0 };
    let u = v.normalize().unwrap();
    // Exact truncations of (3/5, 4/5) at scale ONE.
    assert_eq!(u, Vec3 { x: 39321, y: 52428, z: 0 });
    let n = u.norm();
    assert!((n - ONE).abs() <= 4, "norm of normalized vector was {}", n);
}
