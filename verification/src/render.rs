use vstd::prelude::*;

use crate::buffer::DepthBuffer;
use crate::buffer::FrameBuffer;
use crate::buffer::Rgb;
use crate::geometry::div_trunc;
use crate::geometry::div_trunc_i64;
use crate::geometry::lemma_abs_mul_le;
use crate::geometry::lemma_div_trunc_bound;
use crate::geometry::Vec3;
use crate::geometry::Vec3i;
use crate::geometry::ONE;
use crate::mesh::SimpleMesh;
use crate::mesh::Triangle;
use crate::raster::barycentric;
use crate::raster::bary_covered;
use crate::raster::bary_depth;
use crate::raster::pixel_after;
use crate::shade::shade;
use crate::shade::shade_spec;
use crate::shade::tri_bounded;

verus! {

/// Depth span of the orthographic projection: object-space z in [-1, 1]
/// maps onto [0, DEPTH_RANGE].
pub const DEPTH_RANGE: i64 = 16384;

/// Orthographic projection: [-1, 1] on x maps linearly onto [0, w].
pub open spec fn project_x(v: Vec3, w: int) -> int {
    div_trunc((v.x + ONE) * w, 2 * (ONE as int))
}

pub open spec fn project_y(v: Vec3, h: int) -> int {
    div_trunc((v.y + ONE) * h, 2 * (ONE as int))
}

pub open spec fn project_z(v: Vec3) -> int {
    div_trunc((v.z + ONE) * (DEPTH_RANGE as int), 2 * (ONE as int))
}

pub open spec fn project_vertex(v: Vec3, w: int, h: int) -> Vec3i {
    Vec3i { x: project_x(v, w) as i32, y: project_y(v, h) as i32, z: project_z(v) as i32 }
}

/// What one triangle does to the pair (depth, color) of one pixel: a
/// culled or degenerate face changes nothing; a lit face wins the pixel
/// exactly when it covers it strictly nearer than the pixel has seen.
pub open spec fn tri_pixel_step(
    t: Triangle,
    light: Vec3,
    w: int,
    h: int,
    i: int,
    j: int,
    cur: (int, Rgb),
) -> (int, Rgb) {
    match shade_spec(t, light) {
        Option::None => cur,
        Option::Some(col) => {
            let p0 = project_vertex(t.vertices[0], w, h);
            let p1 = project_vertex(t.vertices[1], w, h);
            let p2 = project_vertex(t.vertices[2], w, h);
            if bary_covered(p0, p1, p2, i, j) && bary_depth(p0, p1, p2, i, j) > cur.0 {
                (bary_depth(p0, p1, p2, i, j), col)
            } else {
                cur
            }
        },
    }
}

/// The pair (depth, color) of one pixel after rendering the whole list,
/// triangle by triangle in order.
pub open spec fn render_pixel(
    ts: Seq<Triangle>,
    light: Vec3,
    w: int,
    h: int,
    i: int,
    j: int,
    cur: (int, Rgb),
) -> (int, Rgb)
    decreases ts.len(),
{
    if ts.len() == 0 {
        cur
    } else {
        tri_pixel_step(
            ts.last(),
            light,
            w,
            h,
            i,
            j,
            render_pixel(ts.drop_last(), light, w, h, i, j, cur),
        )
    }
}

/// Render progress at one pixel: the buffers hold exactly the fold of the
/// given triangles over the pixel's starting depth and color.
pub open spec fn render_done(
    ts: Seq<Triangle>,
    light: Vec3,
    w: int,
    h: int,
    fb0: FrameBuffer,
    db0: DepthBuffer,
    fb: FrameBuffer,
    db: DepthBuffer,
    i: int,
    j: int,
) -> bool {
    let after = render_pixel(ts, light, w, h, i, j, (db0.depth(i, j) as int, fb0.pixel(i, j)));
    db.depth(i, j) == after.0 && fb.pixel(i, j) == after.1
}

/// Projects one object-space vertex to screen space.
pub fn project_vertex_exec(v: &Vec3, w: usize, h: usize) -> (r: Vec3i)
    requires
        v.bounded(ONE as int),
        w <= 16384,
        h <= 16384,
    ensures
        r == project_vertex(*v, w as int, h as int),
        0 <= r.x <= w,
        0 <= r.y <= h,
        0 <= r.z <= DEPTH_RANGE,
{
    proof {
        lemma_abs_mul_le((v.x + ONE) as int, w as int, 2 * (ONE as int), w as int);
        lemma_abs_mul_le((v.y + ONE) as int, h as int, 2 * (ONE as int), h as int);
        lemma_abs_mul_le((v.x + ONE) as int, w as int, 2 * (ONE as int), 16384);
        lemma_abs_mul_le((v.y + ONE) as int, h as int, 2 * (ONE as int), 16384);
        lemma_abs_mul_le((v.z + ONE) as int, DEPTH_RANGE as int, 2 * (ONE as int), DEPTH_RANGE as int);
        lemma_div_trunc_bound((v.x + ONE) * (w as int), 2 * (ONE as int), w as int);
        lemma_div_trunc_bound((v.y + ONE) * (h as int), 2 * (ONE as int), h as int);
        lemma_div_trunc_bound((v.z + ONE) * (DEPTH_RANGE as int), 2 * (ONE as int), DEPTH_RANGE as int);
        lemma_mul_nonneg((v.x + ONE) as int, w as int);
        lemma_mul_nonneg((v.y + ONE) as int, h as int);
        lemma_mul_nonneg((v.z + ONE) as int, DEPTH_RANGE as int);
        lemma_div_trunc_nonneg((v.x + ONE) * (w as int), 2 * (ONE as int));
        lemma_div_trunc_nonneg((v.y + ONE) * (h as int), 2 * (ONE as int));
        lemma_div_trunc_nonneg((v.z + ONE) * (DEPTH_RANGE as int), 2 * (ONE as int));
    }
    let px = div_trunc_i64((v.x + ONE) * (w as i64), 2 * ONE);
    let py = div_trunc_i64((v.y + ONE) * (h as i64), 2 * ONE);
    let pz = div_trunc_i64((v.z + ONE) * DEPTH_RANGE, 2 * ONE);
    Vec3i { x: px as i32, y: py as i32, z: pz as i32 }
}

pub proof fn lemma_mul_nonneg(a: int, b: int)
    by (nonlinear_arith)
    requires
        a >= 0,
        b >= 0,
    ensures
        a * b >= 0,
{
}

pub proof fn lemma_div_trunc_nonneg(a: int, d: int)
    requires
        a >= 0,
        d >= 1,
    ensures
        div_trunc(a, d) >= 0,
{
    assert(a / d >= 0) by (nonlinear_arith)
        requires
            a >= 0,
            d >= 1,
    ;
}

/// The render pass: for each face in order, shade it, and if it is lit,
/// project its vertices and rasterize it through the depth buffer.  Every
/// pixel ends exactly at the fold `render_pixel` of the triangle list over
/// its starting depth and color.
pub fn render(mesh: &SimpleMesh, light: &Vec3, z_buffer: &mut DepthBuffer, image: &mut FrameBuffer)
    requires
        old(image).wf(),
        old(z_buffer).wf(),
        old(z_buffer).spec_width() == old(image).spec_width(),
        old(z_buffer).spec_height() == old(image).spec_height(),
        light.bounded(2 * (ONE as int)),
        forall|k: int|
            0 <= k < mesh.triangles@.len() ==> tri_bounded(#[trigger] mesh.triangles@[k], ONE as int),
    ensures
        final(image).wf(),
        final(z_buffer).wf(),
        final(image).spec_width() == old(image).spec_width(),
        final(image).spec_height() == old(image).spec_height(),
        final(z_buffer).spec_width() == old(z_buffer).spec_width(),
        final(z_buffer).spec_height() == old(z_buffer).spec_height(),
        forall|i: int, j: int|
            0 <= i < old(image).spec_width() && 0 <= j < old(image).spec_height()
                ==> #[trigger] render_done(
                mesh.triangles@,
                *light,
                old(image).spec_width(),
                old(image).spec_height(),
                *old(image),
                *old(z_buffer),
                *final(image),
                *final(z_buffer),
                i,
                j,
            ),
{
    let ghost fb0 = *image;
    let ghost db0 = *z_buffer;
    let ghost ts = mesh.triangles@;
    let w = image.width();
    let h = image.height();
    let n = mesh.triangles.len();
    let mut k: usize = 0;
    while k < n
        invariant
            image.wf(),
            z_buffer.wf(),
            image.spec_width() == fb0.spec_width(),
            image.spec_height() == fb0.spec_height(),
            z_buffer.spec_width() == fb0.spec_width(),
            z_buffer.spec_height() == fb0.spec_height(),
            fb0.wf(),
            db0.wf(),
            db0.spec_width() == fb0.spec_width(),
            db0.spec_height() == fb0.spec_height(),
            w == fb0.spec_width(),
            h == fb0.spec_height(),
            light.bounded(2 * (ONE as int)),
            ts == mesh.triangles@,
            n == ts.len(),
            forall|m: int| 0 <= m < ts.len() ==> tri_bounded(#[trigger] ts[m], ONE as int),
            k <= n,
            forall|i: int, j: int|
                0 <= i < fb0.spec_width() && 0 <= j < fb0.spec_height() ==> #[trigger] render_done(
                    ts.subrange(0, k as int),
                    *light,
                    w as int,
                    h as int,
                    fb0,
                    db0,
                    *image,
                    *z_buffer,
                    i,
                    j,
                ),
        decreases n - k,
    {
        let ghost img_in = *image;
        let ghost zb_in = *z_buffer;
        let t = mesh.triangles[k];
        let lit = shade(&t, light);
        match lit {
            Option::Some(col) => {
                let p0 = project_vertex_exec(&t.vertices[0], w, h);
                let p1 = project_vertex_exec(&t.vertices[1], w, h);
                let p2 = project_vertex_exec(&t.vertices[2], w, h);
                let _ = barycentric(p0, p1, p2, z_buffer, image, col);
            },
            Option::None => {},
        }
        proof {
            assert(ts.subrange(0, k as int + 1).drop_last() =~= ts.subrange(0, k as int));
            assert(ts.subrange(0, k as int + 1).last() == ts[k as int]);
            assert forall|i: int, j: int|
                0 <= i < fb0.spec_width() && 0 <= j < fb0.spec_height()
                    implies #[trigger] render_done(
                ts.subrange(0, k as int + 1),
                *light,
                w as int,
                h as int,
                fb0,
                db0,
                *image,
                *z_buffer,
                i,
                j,
            ) by {
                assert(render_done(
                    ts.subrange(0, k as int),
                    *light,
                    w as int,
                    h as int,
                    fb0,
                    db0,
                    img_in,
                    zb_in,
                    i,
                    j,
                ));
                match shade_spec(ts[k as int], *light) {
                    Option::Some(col) => {
                        let p0 = project_vertex(ts[k as int].vertices[0], w as int, h as int);
                        let p1 = project_vertex(ts[k as int].vertices[1], w as int, h as int);
                        let p2 = project_vertex(ts[k as int].vertices[2], w as int, h as int);
                        assert(pixel_after(p0, p1, p2, col, img_in, zb_in, *image, *z_buffer, i, j));
                    },
                    Option::None => {},
                }
            }
        }
        k = k + 1;
    }
    proof {
        assert(ts.subrange(0, n as int) =~= ts);
    }
}


/// Does the face claim this pixel: lit, and the pixel inside its
/// projected triangle and bounding box?
pub open spec fn lit_covers(t: Triangle, light: Vec3, w: int, h: int, i: int, j: int) -> bool {
    &&& shade_spec(t, light) is Some
    &&& bary_covered(
        project_vertex(t.vertices[0], w, h),
        project_vertex(t.vertices[1], w, h),
        project_vertex(t.vertices[2], w, h),
        i,
        j,
    )
}

/// The depth the face claims at this pixel.
pub open spec fn claimed_depth(t: Triangle, w: int, h: int, i: int, j: int) -> int {
    bary_depth(
        project_vertex(t.vertices[0], w, h),
        project_vertex(t.vertices[1], w, h),
        project_vertex(t.vertices[2], w, h),
        i,
        j,
    )
}

/// Two per-pixel updates commute whenever the two faces do not claim the
/// pixel at exactly equal depth.
pub proof fn lemma_step_commute(
    t1: Triangle,
    t2: Triangle,
    light: Vec3,
    w: int,
    h: int,
    i: int,
    j: int,
    cur: (int, Rgb),
)
    requires
        lit_covers(t1, light, w, h, i, j) && lit_covers(t2, light, w, h, i, j) ==> claimed_depth(
            t1,
            w,
            h,
            i,
            j,
        ) != claimed_depth(t2, w, h, i, j),
    ensures
        tri_pixel_step(t2, light, w, h, i, j, tri_pixel_step(t1, light, w, h, i, j, cur))
            == tri_pixel_step(t1, light, w, h, i, j, tri_pixel_step(t2, light, w, h, i, j, cur)),
{
}

/// The depth-buffered fill is order-independent: two faces drawn in
/// either order leave a pixel in the same state, as long as they do not
/// claim the pixel at exactly equal depth (on an exact tie the face drawn
/// first keeps the pixel, so ties are excluded).
pub proof fn lemma_render_order_independent(
    t1: Triangle,
    t2: Triangle,
    light: Vec3,
    w: int,
    h: int,
    i: int,
    j: int,
    cur: (int, Rgb),
)
    requires
        lit_covers(t1, light, w, h, i, j) && lit_covers(t2, light, w, h, i, j) ==> claimed_depth(
            t1,
            w,
            h,
            i,
            j,
        ) != claimed_depth(t2, w, h, i, j),
    ensures
        render_pixel(seq![t1, t2], light, w, h, i, j, cur) == render_pixel(
            seq![t2, t1],
            light,
            w,
            h,
            i,
            j,
            cur,
        ),
{
    let s12 = seq![t1, t2];
    let s21 = seq![t2, t1];
    assert(s12.drop_last() =~= seq![t1]);
    assert(s21.drop_last() =~= seq![t2]);
    assert(seq![t1].drop_last() =~= Seq::<Triangle>::empty());
    assert(seq![t2].drop_last() =~= Seq::<Triangle>::empty());
    assert(s12.len() == 2 && s12.last() == t2 && s21.len() == 2 && s21.last() == t1);
    assert(seq![t1].len() == 1 && seq![t1].last() == t1);
    assert(seq![t2].len() == 1 && seq![t2].last() == t2);
    assert(render_pixel(Seq::<Triangle>::empty(), light, w, h, i, j, cur) == cur);
    assert(render_pixel(seq![t1], light, w, h, i, j, cur) == tri_pixel_step(
        t1,
        light,
        w,
        h,
        i,
        j,
        cur,
    ));
    assert(render_pixel(seq![t2], light, w, h, i, j, cur) == tri_pixel_step(
        t2,
        light,
        w,
        h,
        i,
        j,
        cur,
    ));
    assert(render_pixel(s12, light, w, h, i, j, cur) == tri_pixel_step(
        t2,
        light,
        w,
        h,
        i,
        j,
        tri_pixel_step(t1, light, w, h, i, j, cur),
    ));
    assert(render_pixel(s21, light, w, h, i, j, cur) == tri_pixel_step(
        t1,
        light,
        w,
        h,
        i,
        j,
        tri_pixel_step(t2, light, w, h, i, j, cur),
    ));
    lemma_step_commute(t1, t2, light, w, h, i, j, cur);
}

/// Swapping two neighbouring faces anywhere in the triangle list leaves a
/// pixel's final state unchanged, as long as the two do not claim the
/// pixel at exactly equal depth.  Repeated swaps reach every shuffle of
/// the list, so a tie-free list may be rendered in any order.
pub proof fn lemma_render_swap_adjacent(
    ts: Seq<Triangle>,
    k: int,
    light: Vec3,
    w: int,
    h: int,
    i: int,
    j: int,
    cur: (int, Rgb),
)
    requires
        0 <= k,
        k + 1 < ts.len(),
        lit_covers(ts[k], light, w, h, i, j) && lit_covers(ts[k + 1], light, w, h, i, j)
            ==> claimed_depth(ts[k], w, h, i, j) != claimed_depth(ts[k + 1], w, h, i, j),
    ensures
        render_pixel(ts.update(k, ts[k + 1]).update(k + 1, ts[k]), light, w, h, i, j, cur)
            == render_pixel(ts, light, w, h, i, j, cur),
    decreases ts.len(),
{
    let swapped = ts.update(k, ts[k + 1]).update(k + 1, ts[k]);
    if k + 1 == ts.len() - 1 {
        let pre = ts.drop_last().drop_last();
        assert(swapped.drop_last().drop_last() =~= pre);
        assert(swapped.last() == ts[k]);
        assert(swapped.drop_last().last() == ts[k + 1]);
        assert(ts.last() == ts[k + 1]);
        assert(ts.drop_last().last() == ts[k]);
        let base = render_pixel(pre, light, w, h, i, j, cur);
        assert(render_pixel(ts, light, w, h, i, j, cur) == tri_pixel_step(
            ts[k + 1],
            light,
            w,
            h,
            i,
            j,
            render_pixel(ts.drop_last(), light, w, h, i, j, cur),
        ));
        assert(render_pixel(ts.drop_last(), light, w, h, i, j, cur) == tri_pixel_step(
            ts[k],
            light,
            w,
            h,
            i,
            j,
            base,
        ));
        assert(render_pixel(swapped, light, w, h, i, j, cur) == tri_pixel_step(
            ts[k],
            light,
            w,
            h,
            i,
            j,
            render_pixel(swapped.drop_last(), light, w, h, i, j, cur),
        ));
        assert(render_pixel(swapped.drop_last(), light, w, h, i, j, cur) == tri_pixel_step(
            ts[k + 1],
            light,
            w,
            h,
            i,
            j,
            base,
        ));
        lemma_step_commute(ts[k], ts[k + 1], light, w, h, i, j, base);
    } else {
        assert(swapped.drop_last() =~= ts.drop_last().update(k, ts[k + 1]).update(k + 1, ts[k]));
        assert(swapped.last() == ts.last());
        assert(ts.drop_last()[k] == ts[k] && ts.drop_last()[k + 1] == ts[k + 1]);
        lemma_render_swap_adjacent(ts.drop_last(), k, light, w, h, i, j, cur);
    }
}

/// A face with nonpositive lighting intensity is culled and contributes
/// zero pixels: it changes no pixel's depth or color.
pub proof fn lemma_dark_face_contributes_no_pixels(
    t: Triangle,
    light: Vec3,
    w: int,
    h: int,
    i: int,
    j: int,
    cur: (int, Rgb),
)
    requires
        crate::shade::shade_intensity(t, light) <= 0,
    ensures
        tri_pixel_step(t, light, w, h, i, j, cur) == cur,
{
    assert(shade_spec(t, light) is None);
}


/// Is every vertex mantissa of the face within one object-space unit?
pub fn tri_within_unit(t: &Triangle) -> (r: bool)
    ensures
        r == tri_bounded(*t, ONE as int),
{
    let mut ok = true;
    let mut k: usize = 0;
    while k < 3
        invariant
            k <= 3,
            ok == forall|m: int| 0 <= m < k ==> t.vertices[m].bounded(ONE as int),
        decreases 3 - k,
    {
        let v = t.vertices[k];
        let good = -ONE <= v.x && v.x <= ONE && -ONE <= v.y && v.y <= ONE && -ONE <= v.z && v.z
            <= ONE;
        ok = ok && good;
        k = k + 1;
    }
    ok
}

/// Is every face of the mesh within one object-space unit on each axis, as
/// the orthographic projection expects?
pub fn mesh_within_unit(mesh: &SimpleMesh) -> (r: bool)
    ensures
        r == (forall|k: int|
            0 <= k < mesh.triangles@.len() ==> tri_bounded(#[trigger] mesh.triangles@[k], ONE as int)),
{
    let n = mesh.triangles.len();
    let mut k: usize = 0;
    let mut ok = true;
    while k < n
        invariant
            n == mesh.triangles@.len(),
            k <= n,
            ok == (forall|m: int|
                0 <= m < k ==> tri_bounded(#[trigger] mesh.triangles@[m], ONE as int)),
        decreases n - k,
    {
        let good = tri_within_unit(&mesh.triangles[k]);
        ok = ok && good;
        k = k + 1;
    }
    ok
}

} // verus!
