use tinyrenderer::buffer::DepthBuffer;
use tinyrenderer::buffer::FrameBuffer;
use tinyrenderer::buffer::Rgb;
use tinyrenderer::geometry::RenderError;
use tinyrenderer::geometry::Vec3;
use tinyrenderer::geometry::Vec3i;
use tinyrenderer::geometry::ONE;
use tinyrenderer::mesh::SimpleMesh;
use tinyrenderer::mesh::Triangle;
use tinyrenderer::raster::barycentric;
use tinyrenderer::raster::triangle;
use tinyrenderer::render::mesh_within_unit;
use tinyrenderer::render::render;
use tinyrenderer::shade::shade;

const BLACK: Rgb = Rgb { r: 0, g: 0, b: 0 };
const WHITE: Rgb = Rgb { r: 255, g: 255, b: 255 };
const RED: Rgb = Rgb { r: 255, g: 0, b: 0 };
const GREEN: Rgb = Rgb { r: 0, g: 255, b: 0 };

fn vi(x: i32, y: i32) -> Vec3i {
    Vec3i { x, y, z: 0 }
}

fn same_image(a: &FrameBuffer, b: &FrameBuffer) -> bool {
    if a.width() != b.width() || a.height() != b.height() {
        return false;
    }
    for x in 0..a.width() {
        for y in 0..a.height() {
            if a.get_pixel(x, y) != b.get_pixel(x, y) {
                return false;
            }
        }
    }
    true
}

#[test]
fn line_is_endpoint_order_symmetric() {
    let cases = [
        (vi(0, 0), vi(7, 3)),
        (vi(2, 9), vi(4, 0)),
        (vi(5, 5), vi(5, 5)),
        (vi(0, 8), vi(8, 0)),
        (vi(-2, 1), vi(6, 12)),
    ];
    for (a, b) in cases {
        let mut fb1 = FrameBuffer::new(16, 16, BLACK);
        let mut fb2 = FrameBuffer::new(16, 16, BLACK);
        tinyrenderer::raster::line(&a, &b, &mut fb1, WHITE);
        tinyrenderer::raster::line(&b, &a, &mut fb2, WHITE);
        assert!(same_image(&fb1, &fb2));
    }
}

#[test]
fn line_draws_expected_pixels() {
    let mut fb = FrameBuffer::new(16, 16, BLACK);
    tinyrenderer::raster::line(&vi(0, 0), &vi(4, 2), &mut fb, WHITE);
    let expected = [(0, 0), (1, 0), (2, 1), (3, 1)];
    for (x, y) in expected {
        assert_eq!(fb.get_pixel(x, y), WHITE, "pixel ({}, {})", x, y);
    }
    // The walk stops one short of the far endpoint.
    assert_eq!(fb.get_pixel(4, 2), BLACK);
    assert_eq!(fb.get_pixel(10, 10), BLACK);
}

#[test]
fn line_skips_pixels_outside_the_buffer() {
    let mut fb = FrameBuffer::new(8, 8, BLACK);
    tinyrenderer::raster::line(&vi(-5, -2), &vi(12, 6), &mut fb, WHITE);
    let mut lit = 0;
    for x in 0..8 {
        for y in 0..8 {
            if fb.get_pixel(x, y) == WHITE {
                lit += 1;
            }
        }
    }
    assert!(lit > 0);
}

#[test]
fn scanline_triangle_scenario() {
    let mut fb = FrameBuffer::new(200, 200, BLACK);
    triangle(vi(10, 70), vi(50, 160), vi(70, 80), &mut fb, WHITE);
    assert_eq!(fb.get_pixel(30, 100), WHITE);
    assert_eq!(fb.get_pixel(0, 0), BLACK);
}

#[test]
fn barycentric_overlap_is_order_independent() {
    let near = [
        Vec3i { x: 0, y: 0, z: 100 },
        Vec3i { x: 20, y: 0, z: 100 },
        Vec3i { x: 0, y: 20, z: 100 },
    ];
    let far = [
        Vec3i { x: 5, y: 5, z: 50 },
        Vec3i { x: 25, y: 5, z: 50 },
        Vec3i { x: 5, y: 25, z: 50 },
    ];

    let mut fb1 = FrameBuffer::new(32, 32, BLACK);
    let mut db1 = DepthBuffer::new(32, 32);
    barycentric(near[0], near[1], near[2], &mut db1, &mut fb1, RED).unwrap();
    barycentric(far[0], far[1], far[2], &mut db1, &mut fb1, GREEN).unwrap();

    let mut fb2 = FrameBuffer::new(32, 32, BLACK);
    let mut db2 = DepthBuffer::new(32, 32);
    barycentric(far[0], far[1], far[2], &mut db2, &mut fb2, GREEN).unwrap();
    barycentric(near[0], near[1], near[2], &mut db2, &mut fb2, RED).unwrap();

    assert!(same_image(&fb1, &fb2));
    // In the overlap only the nearer triangle's color appears.
    assert_eq!(fb1.get_pixel(6, 6), RED);
    // A pixel covered only by the farther triangle keeps its color.
    assert_eq!(fb1.get_pixel(24, 5), GREEN);
    assert_eq!(fb1.get_pixel(31, 31), BLACK);
}

#[test]
fn barycentric_degenerate_triangle_draws_nothing() {
    let mut fb = FrameBuffer::new(16, 16, BLACK);
    let mut db = DepthBuffer::new(16, 16);
    let r = barycentric(
        Vec3i { x: 0, y: 0, z: 5 },
        Vec3i { x: 5, y: 5, z: 5 },
        Vec3i { x: 10, y: 10, z: 5 },
        &mut db,
        &mut fb,
        WHITE,
    );
    assert_eq!(r, Err(RenderError::DegenerateTriangle));
    for x in 0..16 {
        for y in 0..16 {
            assert_eq!(fb.get_pixel(x, y), BLACK);
            assert_eq!(db.get_depth(x, y), i64::MIN);
        }
    }
}

#[test]
fn depth_buffer_keeps_the_nearest() {
    let mut db = DepthBuffer::new(4, 4);
    assert_eq!(db.get_depth(1, 2), i64::MIN);
    assert!(db.check_and_update(1, 2, 5));
    assert!(!db.check_and_update(1, 2, 5));
    assert!(!db.check_and_update(1, 2, 4));
    assert!(db.check_and_update(1, 2, 6));
    assert_eq!(db.get_depth(1, 2), 6);
    assert_eq!(db.get_depth(0, 0), i64::MIN);
}

#[test]
fn framebuffer_flip_vertical() {
    let mut fb = FrameBuffer::new(2, 3, BLACK);
    fb.put_pixel(0, 0, RED);
    fb.put_pixel(1, 2, GREEN);
    let flipped = fb.flip_vertical();
    assert_eq!(flipped.get_pixel(0, 2), RED);
    assert_eq!(flipped.get_pixel(1, 0), GREEN);
    assert_eq!(flipped.get_pixel(0, 1), BLACK);
}

fn unit_triangle(z: i64) -> Triangle {
    Triangle {
        vertices: [
            Vec3 { x: 0, y: 0, z },
            Vec3 { x: ONE, y: 0, z },
            Vec3 { x: 0, y: ONE, z },
        ],
    }
}

#[test]
fn shade_front_face_is_white_and_back_face_is_culled() {
    let t = unit_triangle(0);
    let toward = Vec3 { x: 0, y: 0, z: -ONE };
    let away = Vec3 { x: 0, y: 0, z: ONE };
    assert_eq!(shade(&t, &toward), Some(WHITE));
    assert_eq!(shade(&t, &away), None);
}

#[test]
fn render_single_triangle() {
    let mesh = SimpleMesh { triangles: vec![unit_triangle(0)] };
    assert!(mesh_within_unit(&mesh));
    let light = Vec3 { x: 0, y: 0, z: -ONE };
    let mut fb = FrameBuffer::new(100, 100, BLACK);
    let mut db = DepthBuffer::new(100, 100);
    render(&mesh, &light, &mut db, &mut fb);
    assert_eq!(fb.get_pixel(60, 60), WHITE);
    assert_eq!(fb.get_pixel(10, 10), BLACK);
    assert_eq!(fb.get_pixel(99, 99), BLACK);
}

#[test]
fn render_culled_face_leaves_every_pixel_untouched() {
    let mesh = SimpleMesh { triangles: vec![unit_triangle(0)] };
    let light = Vec3 { x: 0, y: 0, z: ONE };
    let mut fb = FrameBuffer::new(64, 64, BLACK);
    let mut db = DepthBuffer::new(64, 64);
    render(&mesh, &light, &mut db, &mut fb);
    for x in 0..64 {
        for y in 0..64 {
            assert_eq!(fb.get_pixel(x, y), BLACK);
            assert_eq!(db.get_depth(x, y), i64::MIN);
        }
    }
}

#[test]
fn render_order_independent() {
    let near = unit_triangle(ONE / 2);
    let far = Triangle {
        vertices: [
            Vec3 { x: -ONE, y: -ONE, z: -ONE / 2 },
            Vec3 { x: ONE, y: -ONE, z: -ONE / 4 },
            Vec3 { x: -ONE, y: ONE, z: -ONE / 4 },
        ],
    };
    let light = Vec3 { x: 0, y: 0, z: -ONE };
    let m1 = SimpleMesh { triangles: vec![near, far] };
    let m2 = SimpleMesh { triangles: vec![far, near] };
    assert!(mesh_within_unit(&m1));

    let mut fb1 = FrameBuffer::new(100, 100, BLACK);
    let mut db1 = DepthBuffer::new(100, 100);
    render(&m1, &light, &mut db1, &mut fb1);
    let mut fb2 = FrameBuffer::new(100, 100, BLACK);
    let mut db2 = DepthBuffer::new(100, 100);
    render(&m2, &light, &mut db2, &mut fb2);

    assert!(same_image(&fb1, &fb2));
    // Where both faces cover the pixel, the nearer (unit) triangle wins.
    assert_eq!(fb1.get_pixel(50, 50), WHITE);
    // A pixel covered only by the tilted face keeps that face's color,
    // which is dimmer than white because its normal leans away.
    let tilted_only = fb1.get_pixel(10, 10);
    assert_ne!(tilted_only, BLACK);
    assert_ne!(tilted_only, WHITE);
}

#[test]
fn mesh_within_unit_rejects_out_of_range_vertices() {
    let big = Triangle {
        vertices: [
            Vec3 { x: 0, y: 0, z: 0 },
            Vec3 { x: 2 * ONE, y: 0, z: 0 },
            Vec3 { x: 0, y: ONE, z: 0 },
        ],
    };
    let mesh = SimpleMesh { triangles: vec![big] };
    assert!(!mesh_within_unit(&mesh));
}

#[test]
fn barycentric_colors_exactly_the_interior() {
    let mut fb = FrameBuffer::new(16, 16, BLACK);
    let mut db = DepthBuffer::new(16, 16);
    barycentric(
        Vec3i { x: 0, y: 0, z: 1 },
        Vec3i { x: 10, y: 0, z: 1 },
        Vec3i { x: 0, y: 10, z: 1 },
        &mut db,
        &mut fb,
        WHITE,
    )
    .unwrap();
    // Weights s = t = 0 at the first vertex: on the boundary, still interior.
    assert_eq!(fb.get_pixel(0, 0), WHITE);
    assert_eq!(fb.get_pixel(3, 3), WHITE);
    // s + t > 1 beyond the hypotenuse.
    assert_eq!(fb.get_pixel(6, 5), BLACK);
    assert_eq!(fb.get_pixel(15, 15), BLACK);
}
