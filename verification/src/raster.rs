use vstd::prelude::*;

use crate::buffer::DepthBuffer;
use crate::buffer::FrameBuffer;
use crate::buffer::Rgb;
use crate::geometry::abs_int;
use crate::geometry::div_trunc;
use crate::geometry::div_trunc_i64;
use crate::geometry::lemma_abs_mul_le;
use crate::geometry::Vec3i;

verus! {

/// Screen coordinates the rasterizer accepts; keeps every barycentric
/// intermediate inside `i64`.
pub const SCREEN_LIMIT: i32 = 16384;

pub open spec fn min3(a: int, b: int, c: int) -> int {
    if a <= b {
        if a <= c {
            a
        } else {
            c
        }
    } else {
        if b <= c {
            b
        } else {
            c
        }
    }
}

pub open spec fn max3(a: int, b: int, c: int) -> int {
    if a >= b {
        if a >= c {
            a
        } else {
            c
        }
    } else {
        if b >= c {
            b
        } else {
            c
        }
    }
}

fn min3_i32(a: i32, b: i32, c: i32) -> (r: i32)
    ensures
        r == min3(a as int, b as int, c as int),
{
    let m = if a <= b {
        a
    } else {
        b
    };
    if m <= c {
        m
    } else {
        c
    }
}

fn max3_i32(a: i32, b: i32, c: i32) -> (r: i32)
    ensures
        r == max3(a as int, b as int, c as int),
{
    let m = if a >= b {
        a
    } else {
        b
    };
    if m >= c {
        m
    } else {
        c
    }
}

/// Twice the signed screen-space area: the barycentric denominator.
pub open spec fn bary_den(v0: Vec3i, v1: Vec3i, v2: Vec3i) -> int {
    (v1.x - v0.x) * (v2.y - v0.y) - (v1.y - v0.y) * (v2.x - v0.x)
}

/// Numerator of the first barycentric weight `s` at pixel `(x, y)`.
pub open spec fn bary_s_num(v0: Vec3i, v1: Vec3i, v2: Vec3i, x: int, y: int) -> int {
    (x - v0.x) * (v2.y - v0.y) - (y - v0.y) * (v2.x - v0.x)
}

/// Numerator of the second barycentric weight `t` at pixel `(x, y)`.
pub open spec fn bary_t_num(v0: Vec3i, v1: Vec3i, v2: Vec3i, x: int, y: int) -> int {
    (v1.x - v0.x) * (y - v0.y) - (v1.y - v0.y) * (x - v0.x)
}

/// The exact interior test `s >= 0 && t >= 0 && s + t <= 1` on the
/// rational weights, written over the integer numerators; a triangle with
/// zero screen-space area has no interior.
pub open spec fn bary_inside(v0: Vec3i, v1: Vec3i, v2: Vec3i, x: int, y: int) -> bool {
    let d = bary_den(v0, v1, v2);
    let s = bary_s_num(v0, v1, v2, x, y);
    let t = bary_t_num(v0, v1, v2, x, y);
    if d > 0 {
        s >= 0 && t >= 0 && s + t <= d
    } else if d < 0 {
        s <= 0 && t <= 0 && s + t >= d
    } else {
        false
    }
}

/// Inside the triangle and inside its bounding box: exactly the pixels the
/// depth-buffered fill touches.
pub open spec fn bary_covered(v0: Vec3i, v1: Vec3i, v2: Vec3i, x: int, y: int) -> bool {
    &&& min3(v0.x as int, v1.x as int, v2.x as int) <= x <= max3(
        v0.x as int,
        v1.x as int,
        v2.x as int,
    )
    &&& min3(v0.y as int, v1.y as int, v2.y as int) <= y <= max3(
        v0.y as int,
        v1.y as int,
        v2.y as int,
    )
    &&& bary_inside(v0, v1, v2, x, y)
}

/// Depth at `(x, y)`: the three vertex depths combined with weights
/// `(1 - s - t, s, t)`, truncated toward zero.
pub open spec fn bary_depth(v0: Vec3i, v1: Vec3i, v2: Vec3i, x: int, y: int) -> int {
    let d = bary_den(v0, v1, v2);
    let s = bary_s_num(v0, v1, v2, x, y);
    let t = bary_t_num(v0, v1, v2, x, y);
    div_trunc(v0.z * (d - s - t) + v1.z * s + v2.z * t, d)
}

/// What one triangle does to one pixel: if the pixel is covered and the
/// interpolated depth is strictly nearer than what the depth buffer holds,
/// both buffers take the new values; otherwise neither changes.
pub open spec fn pixel_after(
    v0: Vec3i,
    v1: Vec3i,
    v2: Vec3i,
    color: Rgb,
    fb0: FrameBuffer,
    db0: DepthBuffer,
    fb: FrameBuffer,
    db: DepthBuffer,
    i: int,
    j: int,
) -> bool {
    if bary_covered(v0, v1, v2, i, j) && bary_depth(v0, v1, v2, i, j) > db0.depth(i, j) {
        db.depth(i, j) == bary_depth(v0, v1, v2, i, j) && fb.pixel(i, j) == color
    } else {
        db.depth(i, j) == db0.depth(i, j) && fb.pixel(i, j) == fb0.pixel(i, j)
    }
}

/// Depth-buffered barycentric fill: walks the triangle's bounding box and
/// performs the per-pixel compare-and-update of `pixel_after` at every
/// in-range pixel.  A degenerate (zero-area) triangle covers nothing and
/// leaves both buffers untouched.
pub fn barycentric(
    v0: Vec3i,
    v1: Vec3i,
    v2: Vec3i,
    z_buffer: &mut DepthBuffer,
    image: &mut FrameBuffer,
    color: Rgb,
) -> (r: Result<(), crate::geometry::RenderError>)
    requires
        old(image).wf(),
        old(z_buffer).wf(),
        old(z_buffer).spec_width() == old(image).spec_width(),
        old(z_buffer).spec_height() == old(image).spec_height(),
        v0.bounded(SCREEN_LIMIT as int),
        v1.bounded(SCREEN_LIMIT as int),
        v2.bounded(SCREEN_LIMIT as int),
    ensures
        final(image).wf(),
        final(z_buffer).wf(),
        final(image).spec_width() == old(image).spec_width(),
        final(image).spec_height() == old(image).spec_height(),
        final(z_buffer).spec_width() == old(z_buffer).spec_width(),
        final(z_buffer).spec_height() == old(z_buffer).spec_height(),
        forall|i: int, j: int|
            0 <= i < old(image).spec_width() && 0 <= j < old(image).spec_height() ==> pixel_after(
                v0,
                v1,
                v2,
                color,
                *old(image),
                *old(z_buffer),
                *final(image),
                *final(z_buffer),
                i,
                j,
            ),
        r is Err <==> bary_den(v0, v1, v2) == 0,
        r is Err ==> r == Err::<(), crate::geometry::RenderError>(
            crate::geometry::RenderError::DegenerateTriangle,
        ),
{
    let ghost fb0 = *image;
    let ghost db0 = *z_buffer;
    let w = image.width();
    let h = image.height();

    let vs1x: i64 = v1.x as i64 - v0.x as i64;
    let vs1y: i64 = v1.y as i64 - v0.y as i64;
    let vs2x: i64 = v2.x as i64 - v0.x as i64;
    let vs2y: i64 = v2.y as i64 - v0.y as i64;
    proof {
        lemma_abs_mul_le(vs1x as int, vs2y as int, 0x8000, 0x8000);
        lemma_abs_mul_le(vs1y as int, vs2x as int, 0x8000, 0x8000);
    }
    let den: i64 = vs1x * vs2y - vs1y * vs2x;
    assert(den == bary_den(v0, v1, v2));
    if den == 0 {
        assert(forall|i: int, j: int|
            0 <= i < fb0.spec_width() && 0 <= j < fb0.spec_height() ==> pixel_after(
                v0,
                v1,
                v2,
                color,
                fb0,
                db0,
                fb0,
                db0,
                i,
                j,
            ));
        return Err(crate::geometry::RenderError::DegenerateTriangle);
    }
    if w == 0 || h == 0 {
        return Ok(());
    }
    let min_x = min3_i32(v0.x, v1.x, v2.x);
    let max_x = max3_i32(v0.x, v1.x, v2.x);
    let min_y = min3_i32(v0.y, v1.y, v2.y);
    let max_y = max3_i32(v0.y, v1.y, v2.y);

    let x_lo: usize = if min_x < 0 {
        0
    } else {
        min_x as usize
    };
    let x_hi: usize = if max_x < 0 {
        0
    } else if (max_x as usize) >= w {
        w
    } else {
        (max_x as usize) + 1
    };
    let y_lo: usize = if min_y < 0 {
        0
    } else {
        min_y as usize
    };
    let y_hi: usize = if max_y < 0 {
        0
    } else if (max_y as usize) >= h {
        h
    } else {
        (max_y as usize) + 1
    };

    let mut x: usize = x_lo;
    while x < x_hi
        invariant
            image.wf(),
            z_buffer.wf(),
            image.spec_width() == fb0.spec_width(),
            image.spec_height() == fb0.spec_height(),
            z_buffer.spec_width() == fb0.spec_width(),
            z_buffer.spec_height() == fb0.spec_height(),
            fb0.wf(),
            db0.wf(),
            db0.spec_width() == fb0.spec_width(),
            db0.spec_height() == fb0.spec_height(),
            w == fb0.spec_width(),
            h == fb0.spec_height(),
            0 < w <= 16384,
            0 < h <= 16384,
            v0.bounded(SCREEN_LIMIT as int),
            v1.bounded(SCREEN_LIMIT as int),
            v2.bounded(SCREEN_LIMIT as int),
            den == bary_den(v0, v1, v2),
            den != 0,
            -0x8000_0000 <= den <= 0x8000_0000,
            vs1x == v1.x - v0.x,
            vs1y == v1.y - v0.y,
            vs2x == v2.x - v0.x,
            vs2y == v2.y - v0.y,
            min_x == min3(v0.x as int, v1.x as int, v2.x as int),
            max_x == max3(v0.x as int, v1.x as int, v2.x as int),
            min_y == min3(v0.y as int, v1.y as int, v2.y as int),
            max_y == max3(v0.y as int, v1.y as int, v2.y as int),
            x_lo == if min_x < 0 {
                0
            } else {
                min_x as int
            },
            x_hi == if max_x < 0 {
                0
            } else if max_x as int >= w {
                w as int
            } else {
                max_x as int + 1
            },
            y_lo == if min_y < 0 {
                0
            } else {
                min_y as int
            },
            y_hi == if max_y < 0 {
                0
            } else if max_y as int >= h {
                h as int
            } else {
                max_y as int + 1
            },
            x_lo <= x,
            x <= x_hi || x == x_lo,
            forall|i: int, j: int|
                0 <= i < fb0.spec_width() && 0 <= j < fb0.spec_height() && x_lo <= i < x
                    ==> pixel_after(v0, v1, v2, color, fb0, db0, *image, *z_buffer, i, j),
            forall|i: int, j: int|
                0 <= i < fb0.spec_width() && 0 <= j < fb0.spec_height() && !(x_lo <= i < x) ==> (
                z_buffer.depth(i, j) == db0.depth(i, j) && image.pixel(i, j) == fb0.pixel(i, j)),
        decreases x_hi - x,
    {
        let mut y: usize = y_lo;
        while y < y_hi
            invariant
                image.wf(),
                z_buffer.wf(),
                image.spec_width() == fb0.spec_width(),
                image.spec_height() == fb0.spec_height(),
                z_buffer.spec_width() == fb0.spec_width(),
                z_buffer.spec_height() == fb0.spec_height(),
                fb0.wf(),
                db0.wf(),
                db0.spec_width() == fb0.spec_width(),
                db0.spec_height() == fb0.spec_height(),
                w == fb0.spec_width(),
                h == fb0.spec_height(),
                0 < w <= 16384,
                0 < h <= 16384,
                v0.bounded(SCREEN_LIMIT as int),
                v1.bounded(SCREEN_LIMIT as int),
                v2.bounded(SCREEN_LIMIT as int),
                den == bary_den(v0, v1, v2),
                den != 0,
                -0x8000_0000 <= den <= 0x8000_0000,
                vs1x == v1.x - v0.x,
                vs1y == v1.y - v0.y,
                vs2x == v2.x - v0.x,
                vs2y == v2.y - v0.y,
                min_x == min3(v0.x as int, v1.x as int, v2.x as int),
                max_x == max3(v0.x as int, v1.x as int, v2.x as int),
                min_y == min3(v0.y as int, v1.y as int, v2.y as int),
                max_y == max3(v0.y as int, v1.y as int, v2.y as int),
                x_lo == if min_x < 0 {
                    0
                } else {
                    min_x as int
                },
                x_hi == if max_x < 0 {
                    0
                } else if max_x as int >= w {
                    w as int
                } else {
                    max_x as int + 1
                },
                y_lo == if min_y < 0 {
                    0
                } else {
                    min_y as int
                },
                y_hi == if max_y < 0 {
                    0
                } else if max_y as int >= h {
                    h as int
                } else {
                    max_y as int + 1
                },
                x_lo <= x < x_hi,
                y_lo <= y,
                y <= y_hi || y == y_lo,
                forall|i: int, j: int|
                    0 <= i < fb0.spec_width() && 0 <= j < fb0.spec_height() && x_lo <= i < x
                        ==> pixel_after(v0, v1, v2, color, fb0, db0, *image, *z_buffer, i, j),
                forall|i: int, j: int|
                    0 <= i < fb0.spec_width() && 0 <= j < fb0.spec_height() && i == x as int
                        && y_lo <= j < y ==> pixel_after(
                        v0,
                        v1,
                        v2,
                        color,
                        fb0,
                        db0,
                        *image,
                        *z_buffer,
                        i,
                        j,
                    ),
                forall|i: int, j: int|
                    0 <= i < fb0.spec_width() && 0 <= j < fb0.spec_height() && !(x_lo <= i < x)
                        && !(i == x && y_lo <= j < y) ==> (z_buffer.depth(i, j) == db0.depth(i, j)
                        && image.pixel(i, j) == fb0.pixel(i, j)),
            decreases y_hi - y,
        {
            let ghost img_in = *image;
            let ghost zb_in = *z_buffer;
            let qx: i64 = x as i64 - v0.x as i64;
            let qy: i64 = y as i64 - v0.y as i64;
            proof {
                lemma_abs_mul_le(qx as int, vs2y as int, 0x8000, 0x8000);
                lemma_abs_mul_le(qy as int, vs2x as int, 0x8000, 0x8000);
                lemma_abs_mul_le(vs1x as int, qy as int, 0x8000, 0x8000);
                lemma_abs_mul_le(vs1y as int, qx as int, 0x8000, 0x8000);
            }
            let ns: i64 = qx * vs2y - qy * vs2x;
            let nt: i64 = vs1x * qy - vs1y * qx;
            assert(ns == bary_s_num(v0, v1, v2, x as int, y as int));
            assert(nt == bary_t_num(v0, v1, v2, x as int, y as int));
            let inside = if den > 0 {
                ns >= 0 && nt >= 0 && ns + nt <= den
            } else {
                ns <= 0 && nt <= 0 && ns + nt >= den
            };
            assert(inside == bary_inside(v0, v1, v2, x as int, y as int));
            if inside {
                proof {
                    lemma_abs_mul_le(v0.z as int, (den - ns - nt) as int, 0x4000, 0x2_0000_0000);
                    lemma_abs_mul_le(v1.z as int, ns as int, 0x4000, 0x1_0000_0000);
                    lemma_abs_mul_le(v2.z as int, nt as int, 0x4000, 0x1_0000_0000);
                }
                let num: i64 = v0.z as i64 * (den - ns - nt) + v1.z as i64 * ns + v2.z as i64 * nt;
                let depth: i64 = div_trunc_i64(num, den);
                assert(depth == bary_depth(v0, v1, v2, x as int, y as int));
                let hit = z_buffer.check_and_update(x, y, depth);
                if hit {
                    image.put_pixel(x, y, color);
                }
            }
            proof {
                let px = x as int;
                let py = y as int;
                assert(zb_in.depth(px, py) == db0.depth(px, py));
                assert(img_in.pixel(px, py) == fb0.pixel(px, py));
                assert(min3(v0.x as int, v1.x as int, v2.x as int) <= px <= max3(
                    v0.x as int,
                    v1.x as int,
                    v2.x as int,
                ));
                assert(min3(v0.y as int, v1.y as int, v2.y as int) <= py <= max3(
                    v0.y as int,
                    v1.y as int,
                    v2.y as int,
                ));
                assert(bary_covered(v0, v1, v2, px, py) == inside);
                assert(pixel_after(v0, v1, v2, color, fb0, db0, *image, *z_buffer, px, py));
                assert forall|i: int, j: int|
                    0 <= i < fb0.spec_width() && 0 <= j < fb0.spec_height() && (x_lo <= i < x || (
                    i == px && y_lo <= j < py)) implies pixel_after(
                    v0,
                    v1,
                    v2,
                    color,
                    fb0,
                    db0,
                    *image,
                    *z_buffer,
                    i,
                    j,
                ) by {
                    assert(!(i == px && j == py));
                    assert(z_buffer.depth(i, j) == zb_in.depth(i, j));
                    assert(image.pixel(i, j) == img_in.pixel(i, j));
                    assert(pixel_after(v0, v1, v2, color, fb0, db0, img_in, zb_in, i, j));
                }
                assert forall|i: int, j: int|
                    0 <= i < fb0.spec_width() && 0 <= j < fb0.spec_height() && !(x_lo <= i < x)
                        && !(i == px && y_lo <= j < py + 1) implies (z_buffer.depth(i, j)
                    == db0.depth(i, j) && image.pixel(i, j) == fb0.pixel(i, j)) by {
                    assert(!(i == px && j == py));
                    assert(z_buffer.depth(i, j) == zb_in.depth(i, j));
                    assert(image.pixel(i, j) == img_in.pixel(i, j));
                }
            }
            y = y + 1;
        }
        x = x + 1;
        proof {
            assert forall|i: int, j: int|
                0 <= i < fb0.spec_width() && 0 <= j < fb0.spec_height() && x_lo <= i < x
                    implies pixel_after(v0, v1, v2, color, fb0, db0, *image, *z_buffer, i, j) by {
                if i == x - 1 {
                    if y_lo <= j < y_hi {
                    } else {
                        assert(!bary_covered(v0, v1, v2, i, j));
                    }
                }
            }
        }
    }
    proof {
        assert forall|i: int, j: int|
            0 <= i < fb0.spec_width() && 0 <= j < fb0.spec_height() implies pixel_after(
            v0,
            v1,
            v2,
            color,
            fb0,
            db0,
            *image,
            *z_buffer,
            i,
            j,
        ) by {
            if !(x_lo <= i < x) {
                assert(!bary_covered(v0, v1, v2, i, j));
            }
        }
    }
    Ok(())
}

/// Does the line rise faster than it runs?  Then x and y swap roles.
pub open spec fn line_steep(v0: Vec3i, v1: Vec3i) -> bool {
    abs_int(v0.x - v1.x) < abs_int(v0.y - v1.y)
}

/// Major-axis coordinate where the walk starts (after the steep swap,
/// endpoints ordered so the walk runs left to right).
pub open spec fn line_sx(v0: Vec3i, v1: Vec3i) -> int {
    if line_steep(v0, v1) {
        if v0.y > v1.y {
            v1.y as int
        } else {
            v0.y as int
        }
    } else {
        if v0.x > v1.x {
            v1.x as int
        } else {
            v0.x as int
        }
    }
}

/// Major-axis coordinate where the walk stops (exclusive).
pub open spec fn line_ex(v0: Vec3i, v1: Vec3i) -> int {
    if line_steep(v0, v1) {
        if v0.y > v1.y {
            v0.y as int
        } else {
            v1.y as int
        }
    } else {
        if v0.x > v1.x {
            v0.x as int
        } else {
            v1.x as int
        }
    }
}

/// Minor-axis coordinate at the start of the walk.
pub open spec fn line_sy0(v0: Vec3i, v1: Vec3i) -> int {
    if line_steep(v0, v1) {
        if v0.y > v1.y {
            v1.x as int
        } else {
            v0.x as int
        }
    } else {
        if v0.x > v1.x {
            v1.y as int
        } else {
            v0.y as int
        }
    }
}

/// Minor-axis coordinate at the far endpoint.
pub open spec fn line_ey(v0: Vec3i, v1: Vec3i) -> int {
    if line_steep(v0, v1) {
        if v0.y > v1.y {
            v0.x as int
        } else {
            v1.x as int
        }
    } else {
        if v0.x > v1.x {
            v0.y as int
        } else {
            v1.y as int
        }
    }
}

/// Minor coordinate and error term after `k` unit steps along the major
/// axis, with the symmetric error accumulator scaled by `derr`.
pub open spec fn bres_state(k: nat, y0: int, dx: int, derr: int, sy: int) -> (int, int)
    decreases k,
{
    if k == 0 {
        (y0, 0)
    } else {
        let prev = bres_state((k - 1) as nat, y0, dx, derr, sy);
        let e2 = prev.1 + derr;
        if e2 > dx {
            (prev.0 + sy, e2 - 2 * dx)
        } else {
            (prev.0, e2)
        }
    }
}

/// Does Bresenham's walk for the segment `v0 v1` emit image pixel
/// `(i, j)`?  Exactly one pixel per major-axis step, its minor coordinate
/// given by the error accumulator.
pub open spec fn line_has_pixel(v0: Vec3i, v1: Vec3i, i: int, j: int) -> bool {
    let wi = if line_steep(v0, v1) {
        j
    } else {
        i
    };
    let wj = if line_steep(v0, v1) {
        i
    } else {
        j
    };
    let sx = line_sx(v0, v1);
    let ex = line_ex(v0, v1);
    let sy0 = line_sy0(v0, v1);
    let ey = line_ey(v0, v1);
    &&& sx <= wi < ex
    &&& wj == bres_state((wi - sx) as nat, sy0, ex - sx, 2 * abs_int(ey - sy0), (if ey > sy0 {
        1int
    } else {
        -1int
    })).0
}

/// Walk progress at one pixel: pixels the walk has emitted so far (major
/// coordinate below `upto`) carry the line's color, all others still hold
/// their starting color.
pub open spec fn line_pixel_done(
    v0: Vec3i,
    v1: Vec3i,
    color: Rgb,
    fb0: FrameBuffer,
    fb: FrameBuffer,
    i: int,
    j: int,
    upto: int,
) -> bool {
    if line_has_pixel(v0, v1, i, j) && (if line_steep(v0, v1) {
        j
    } else {
        i
    }) < upto {
        fb.pixel(i, j) == color
    } else {
        fb.pixel(i, j) == fb0.pixel(i, j)
    }
}

/// Bresenham line: walks the major axis one unit at a time and colors one
/// pixel per step; pixels that fall outside the buffer are skipped.  The
/// pixel set does not depend on which endpoint comes first.
pub fn line(v0: &Vec3i, v1: &Vec3i, image: &mut FrameBuffer, color: Rgb)
    requires
        old(image).wf(),
        v0.bounded(SCREEN_LIMIT as int),
        v1.bounded(SCREEN_LIMIT as int),
    ensures
        final(image).wf(),
        final(image).spec_width() == old(image).spec_width(),
        final(image).spec_height() == old(image).spec_height(),
        forall|i: int, j: int|
            0 <= i < old(image).spec_width() && 0 <= j < old(image).spec_height()
                ==> #[trigger] line_pixel_done(
                *v0,
                *v1,
                color,
                *old(image),
                *final(image),
                i,
                j,
                line_ex(*v0, *v1),
            ),
{
    let ghost fb0 = *image;
    let mut x0: i64 = v0.x as i64;
    let mut y0: i64 = v0.y as i64;
    let mut x1: i64 = v1.x as i64;
    let mut y1: i64 = v1.y as i64;
    let mut steep = false;
    let adx = if x0 - x1 >= 0 {
        x0 - x1
    } else {
        x1 - x0
    };
    let ady = if y0 - y1 >= 0 {
        y0 - y1
    } else {
        y1 - y0
    };
    if adx < ady {
        let t0 = x0;
        x0 = y0;
        y0 = t0;
        let t1 = x1;
        x1 = y1;
        y1 = t1;
        steep = true;
    }
    if x0 > x1 {
        let tx = x0;
        x0 = x1;
        x1 = tx;
        let ty = y0;
        y0 = y1;
        y1 = ty;
    }
    assert(-16384 <= x0 <= 16384);
    assert(-16384 <= y0 <= 16384);
    assert(-16384 <= x1 <= 16384);
    assert(-16384 <= y1 <= 16384);
    assert(steep == line_steep(*v0, *v1));
    assert(x0 == line_sx(*v0, *v1));
    assert(x1 == line_ex(*v0, *v1));
    assert(y0 == line_sy0(*v0, *v1));
    assert(y1 == line_ey(*v0, *v1));
    let dx = x1 - x0;
    let dy = y1 - y0;
    assert(-32768 <= dy <= 32768);
    let ady2 = if dy >= 0 {
        dy
    } else {
        -dy
    };
    let derr = 2 * ady2;
    let sy: i64 = if y1 > y0 {
        1
    } else {
        -1
    };
    let mut err: i64 = 0;
    let mut x = x0;
    let mut y = y0;
    while x < x1
        invariant
            image.wf(),
            image.spec_width() == fb0.spec_width(),
            image.spec_height() == fb0.spec_height(),
            fb0.wf(),
            steep == line_steep(*v0, *v1),
            x0 == line_sx(*v0, *v1),
            x1 == line_ex(*v0, *v1),
            y0 == line_sy0(*v0, *v1),
            y1 == line_ey(*v0, *v1),
            -16384 <= x0 <= 16384,
            -16384 <= y0 <= 16384,
            -16384 <= x1 <= 16384,
            -16384 <= y1 <= 16384,
            dx == x1 - x0,
            0 <= dx,
            derr == 2 * abs_int(y1 - y0),
            abs_int(y1 - y0) <= dx,
            sy == (if y1 > y0 {
                1int
            } else {
                -1int
            }),
            x0 <= x <= x1,
            -(16384 + (x - x0)) <= y <= 16384 + (x - x0),
            -dx <= err <= dx,
            y == bres_state((x - x0) as nat, y0 as int, dx as int, derr as int, sy as int).0,
            err == bres_state((x - x0) as nat, y0 as int, dx as int, derr as int, sy as int).1,
            forall|i: int, j: int|
                0 <= i < fb0.spec_width() && 0 <= j < fb0.spec_height() ==> #[trigger] line_pixel_done(
                    *v0,
                    *v1,
                    color,
                    fb0,
                    *image,
                    i,
                    j,
                    x as int,
                ),
        decreases x1 - x,
    {
        let ghost img_in = *image;
        let px_img: i64 = if steep {
            y
        } else {
            x
        };
        let py_img: i64 = if steep {
            x
        } else {
            y
        };
        let w = image.width();
        let h = image.height();
        let drew = 0 <= px_img && px_img < w as i64 && 0 <= py_img && py_img < h as i64;
        if drew {
            image.put_pixel(px_img as usize, py_img as usize, color);
        }
        proof {
            assert(line_has_pixel(*v0, *v1, px_img as int, py_img as int));
            assert forall|i: int, j: int|
                0 <= i < fb0.spec_width() && 0 <= j < fb0.spec_height() implies #[trigger] line_pixel_done(
                *v0,
                *v1,
                color,
                fb0,
                *image,
                i,
                j,
                x as int + 1,
            ) by {
                assert(line_pixel_done(*v0, *v1, color, fb0, img_in, i, j, x as int));
                if i == px_img as int && j == py_img as int {
                } else {
                    assert(image.pixel(i, j) == img_in.pixel(i, j));
                    if line_has_pixel(*v0, *v1, i, j) && (if steep {
                        j
                    } else {
                        i
                    }) == x {
                        assert(i == px_img as int && j == py_img as int);
                    }
                }
            }
        }
        err = err + derr;
        if err > dx {
            y = y + sy;
            err = err - 2 * dx;
        }
        x = x + 1;
        proof {
            assert(bres_state((x - x0) as nat, y0 as int, dx as int, derr as int, sy as int) == ({
                let prev = bres_state((x - 1 - x0) as nat, y0 as int, dx as int, derr as int, sy as int);
                let e2 = prev.1 + derr;
                if e2 > dx as int {
                    (prev.0 + sy, e2 - 2 * (dx as int))
                } else {
                    (prev.0, e2)
                }
            }));
        }
    }
    proof {
        assert forall|i: int, j: int|
            0 <= i < fb0.spec_width() && 0 <= j < fb0.spec_height() implies #[trigger] line_pixel_done(
            *v0,
            *v1,
            color,
            fb0,
            *image,
            i,
            j,
            line_ex(*v0, *v1),
        ) by {
            assert(line_pixel_done(*v0, *v1, color, fb0, *image, i, j, x as int));
        }
    }
}

/// The pixel set of a Bresenham line does not depend on endpoint order.
pub proof fn lemma_line_endpoint_symmetric(v0: Vec3i, v1: Vec3i)
    ensures
        forall|i: int, j: int| line_has_pixel(v0, v1, i, j) == line_has_pixel(v1, v0, i, j),
{
    assert(line_steep(v0, v1) == line_steep(v1, v0));
    if line_sx(v0, v1) == line_ex(v0, v1) {
        assert forall|i: int, j: int|
            line_has_pixel(v0, v1, i, j) == line_has_pixel(v1, v0, i, j) by {
            assert(!line_has_pixel(v0, v1, i, j));
            assert(!line_has_pixel(v1, v0, i, j));
        }
    } else {
        assert(line_sx(v0, v1) == line_sx(v1, v0));
        assert(line_ex(v0, v1) == line_ex(v1, v0));
        assert(line_sy0(v0, v1) == line_sy0(v1, v0));
        assert(line_ey(v0, v1) == line_ey(v1, v0));
    }
}


/// The three vertices reordered by ascending y through a fixed
/// three-exchange network (deterministic in its tie handling).
pub open spec fn sort3_by_y(v0: Vec3i, v1: Vec3i, v2: Vec3i) -> (Vec3i, Vec3i, Vec3i) {
    let a0 = if v0.y > v1.y {
        v1
    } else {
        v0
    };
    let a1 = if v0.y > v1.y {
        v0
    } else {
        v1
    };
    let b0 = if a0.y > v2.y {
        v2
    } else {
        a0
    };
    let b2 = if a0.y > v2.y {
        a0
    } else {
        v2
    };
    let c1 = if a1.y > b2.y {
        b2
    } else {
        a1
    };
    let c2 = if a1.y > b2.y {
        a1
    } else {
        b2
    };
    (b0, c1, c2)
}

/// Left and right fill boundaries of scanline `y` for a y-sorted triangle:
/// one edge interpolated over the full height, the other over the current
/// segment, swapped so the left comes first.
pub open spec fn scan_bounds(s0: Vec3i, s1: Vec3i, s2: Vec3i, y: int) -> (int, int) {
    let a = s0.x + div_trunc((s2.x - s0.x) * (y - s0.y), s2.y - s0.y);
    let b = if y < s1.y {
        s0.x + div_trunc((s1.x - s0.x) * (y - s0.y), s1.y - s0.y + 1)
    } else {
        s1.x + div_trunc((s2.x - s1.x) * (y - s1.y), s2.y - s1.y + 1)
    };
    if a > b {
        (b, a)
    } else {
        (a, b)
    }
}

/// Does the scanline fill of triangle `v0 v1 v2` color image pixel
/// `(i, j)`?
pub open spec fn scanline_has_pixel(v0: Vec3i, v1: Vec3i, v2: Vec3i, i: int, j: int) -> bool {
    let s = sort3_by_y(v0, v1, v2);
    &&& s.0.y <= j < s.2.y
    &&& scan_bounds(s.0, s.1, s.2, j).0 <= i < scan_bounds(s.0, s.1, s.2, j).1
}

/// Fill progress at one pixel: rows below `row` are complete, everything
/// else still holds its starting color.
pub open spec fn scan_rows_done(
    v0: Vec3i,
    v1: Vec3i,
    v2: Vec3i,
    color: Rgb,
    fb0: FrameBuffer,
    fb: FrameBuffer,
    i: int,
    j: int,
    row: int,
) -> bool {
    if scanline_has_pixel(v0, v1, v2, i, j) && j < row {
        fb.pixel(i, j) == color
    } else {
        fb.pixel(i, j) == fb0.pixel(i, j)
    }
}


/// One scanline after filling: row `y` carries the color between the two
/// boundaries, every other pixel still holds its starting color.
pub open spec fn row_filled(
    s0: Vec3i,
    s1: Vec3i,
    s2: Vec3i,
    color: Rgb,
    fb0: FrameBuffer,
    fb: FrameBuffer,
    i: int,
    j: int,
    y: int,
) -> bool {
    if j == y && scan_bounds(s0, s1, s2, j).0 <= i < scan_bounds(s0, s1, s2, j).1 {
        fb.pixel(i, j) == color
    } else {
        fb.pixel(i, j) == fb0.pixel(i, j)
    }
}

/// Fills one scanline of a y-sorted triangle between the interpolated
/// boundaries; pixels outside the buffer are skipped.
fn fill_row(s0: Vec3i, s1: Vec3i, s2: Vec3i, y: i64, image: &mut FrameBuffer, color: Rgb)
    requires
        old(image).wf(),
        s0.bounded(SCREEN_LIMIT as int),
        s1.bounded(SCREEN_LIMIT as int),
        s2.bounded(SCREEN_LIMIT as int),
        s0.y <= s1.y <= s2.y,
        s0.y <= y < s2.y,
    ensures
        final(image).wf(),
        final(image).spec_width() == old(image).spec_width(),
        final(image).spec_height() == old(image).spec_height(),
        forall|i: int, j: int|
            0 <= i < old(image).spec_width() && 0 <= j < old(image).spec_height()
                ==> #[trigger] row_filled(
                s0,
                s1,
                s2,
                color,
                *old(image),
                *final(image),
                i,
                j,
                y as int,
            ),
{
    let ghost fb0 = *image;
    let w = image.width();
    let h = image.height();
    if y < 0 || y >= h as i64 {
        return ;
    }
    let a: i64 = s0.x as i64 + crate::geometry::mul_div_trunc(
        s2.x as i64 - s0.x as i64,
        y - s0.y as i64,
        s2.y as i64 - s0.y as i64,
    );
    let b: i64 = if y < s1.y as i64 {
        s0.x as i64 + crate::geometry::mul_div_trunc(
            s1.x as i64 - s0.x as i64,
            y - s0.y as i64,
            s1.y as i64 - s0.y as i64 + 1,
        )
    } else {
        s1.x as i64 + crate::geometry::mul_div_trunc(
            s2.x as i64 - s1.x as i64,
            y - s1.y as i64,
            s2.y as i64 - s1.y as i64 + 1,
        )
    };
    let lo: i64 = if a > b {
        b
    } else {
        a
    };
    let hi: i64 = if a > b {
        a
    } else {
        b
    };
    assert(lo == scan_bounds(s0, s1, s2, y as int).0);
    assert(hi == scan_bounds(s0, s1, s2, y as int).1);
    let x_start: i64 = if lo < 0 {
        0
    } else {
        lo
    };
    let x_end: i64 = if hi > w as i64 {
        w as i64
    } else {
        hi
    };
    let mut xx: i64 = x_start;
    while xx < x_end
        invariant
            image.wf(),
            image.spec_width() == fb0.spec_width(),
            image.spec_height() == fb0.spec_height(),
            fb0.wf(),
            w == fb0.spec_width(),
            h == fb0.spec_height(),
            0 <= y < h,
            lo == scan_bounds(s0, s1, s2, y as int).0,
            hi == scan_bounds(s0, s1, s2, y as int).1,
            x_start == (if lo < 0 {
                0int
            } else {
                lo as int
            }),
            x_end == (if hi > w as int {
                w as int
            } else {
                hi as int
            }),
            x_start <= xx,
            xx <= x_end || xx == x_start,
            forall|i: int|
                0 <= i < fb0.spec_width() && x_start <= i < xx ==> image.pixel(i, y as int)
                    == color,
            forall|i: int, j: int|
                0 <= i < fb0.spec_width() && 0 <= j < fb0.spec_height() && !(j == y as int
                    && x_start <= i < xx) ==> image.pixel(i, j) == fb0.pixel(i, j),
        decreases x_end - xx,
    {
        let ghost img_in = *image;
        image.put_pixel(xx as usize, y as usize, color);
        proof {
            assert forall|i: int, j: int|
                0 <= i < fb0.spec_width() && 0 <= j < fb0.spec_height() && !(j == y as int
                    && x_start <= i < xx + 1) implies image.pixel(i, j) == fb0.pixel(i, j) by {
                assert(!(i == xx as int && j == y as int));
                assert(image.pixel(i, j) == img_in.pixel(i, j));
            }
        }
        xx = xx + 1;
    }
    proof {
        assert forall|i: int, j: int|
            0 <= i < fb0.spec_width() && 0 <= j < fb0.spec_height() implies #[trigger] row_filled(
            s0,
            s1,
            s2,
            color,
            fb0,
            *image,
            i,
            j,
            y as int,
        ) by {
            if j == y as int && scan_bounds(s0, s1, s2, j).0 <= i < scan_bounds(s0, s1, s2, j).1 {
                assert(x_start <= i < x_end);
            } else {
                assert(!(j == y as int && x_start <= i < xx));
            }
        }
    }
}

/// Scanline triangle fill (painter's algorithm, no depth test): sorts the
/// vertices by y, splits the triangle at the middle vertex, and fills each
/// scanline between the long-edge boundary and the segment boundary.
pub fn triangle(v0: Vec3i, v1: Vec3i, v2: Vec3i, image: &mut FrameBuffer, color: Rgb)
    requires
        old(image).wf(),
        v0.bounded(SCREEN_LIMIT as int),
        v1.bounded(SCREEN_LIMIT as int),
        v2.bounded(SCREEN_LIMIT as int),
    ensures
        final(image).wf(),
        final(image).spec_width() == old(image).spec_width(),
        final(image).spec_height() == old(image).spec_height(),
        forall|i: int, j: int|
            0 <= i < old(image).spec_width() && 0 <= j < old(image).spec_height()
                ==> #[trigger] scan_rows_done(
                v0,
                v1,
                v2,
                color,
                *old(image),
                *final(image),
                i,
                j,
                sort3_by_y(v0, v1, v2).2.y as int,
            ),
{
    let ghost fb0 = *image;
    let mut a = v0;
    let mut b = v1;
    let mut c = v2;
    if a.y > b.y {
        let t = a;
        a = b;
        b = t;
    }
    if a.y > c.y {
        let t = a;
        a = c;
        c = t;
    }
    if b.y > c.y {
        let t = b;
        b = c;
        c = t;
    }
    assert(a == sort3_by_y(v0, v1, v2).0);
    assert(b == sort3_by_y(v0, v1, v2).1);
    assert(c == sort3_by_y(v0, v1, v2).2);
    let mut yy: i64 = a.y as i64;
    while yy < c.y as i64
        invariant
            image.wf(),
            image.spec_width() == fb0.spec_width(),
            image.spec_height() == fb0.spec_height(),
            fb0.wf(),
            v0.bounded(SCREEN_LIMIT as int),
            v1.bounded(SCREEN_LIMIT as int),
            v2.bounded(SCREEN_LIMIT as int),
            a == sort3_by_y(v0, v1, v2).0,
            b == sort3_by_y(v0, v1, v2).1,
            c == sort3_by_y(v0, v1, v2).2,
            a.bounded(SCREEN_LIMIT as int),
            b.bounded(SCREEN_LIMIT as int),
            c.bounded(SCREEN_LIMIT as int),
            a.y <= b.y <= c.y,
            a.y <= yy <= c.y,
            forall|i: int, j: int|
                0 <= i < fb0.spec_width() && 0 <= j < fb0.spec_height() ==> #[trigger] scan_rows_done(
                    v0,
                    v1,
                    v2,
                    color,
                    fb0,
                    *image,
                    i,
                    j,
                    yy as int,
                ),
        decreases c.y as int - yy,
    {
        let ghost img_in = *image;
        fill_row(a, b, c, yy, image, color);
        proof {
            assert forall|i: int, j: int|
                0 <= i < fb0.spec_width() && 0 <= j < fb0.spec_height()
                    implies #[trigger] scan_rows_done(
                v0,
                v1,
                v2,
                color,
                fb0,
                *image,
                i,
                j,
                yy as int + 1,
            ) by {
                assert(row_filled(a, b, c, color, img_in, *image, i, j, yy as int));
                assert(scan_rows_done(v0, v1, v2, color, fb0, img_in, i, j, yy as int));
            }
        }
        yy = yy + 1;
    }
}


/// Cramer's rule identity behind the barycentric weights: combining the
/// two edge vectors with the integer weight numerators reconstructs the
/// query offset scaled by the denominator.
#[verifier::rlimit(60)]
proof fn lemma_cramer_x(ax: int, ay: int, bx: int, by: int, qx: int, qy: int)
    by (nonlinear_arith)
    ensures
        (qx * by - qy * bx) * ax + (ax * qy - ay * qx) * bx == qx * (ax * by - ay * bx),
{
}

#[verifier::rlimit(60)]
proof fn lemma_cramer_y(ax: int, ay: int, bx: int, by: int, qx: int, qy: int)
    by (nonlinear_arith)
    ensures
        (qx * by - qy * bx) * ay + (ax * qy - ay * qx) * by == qy * (ax * by - ay * bx),
{
}

/// An interior pixel has nonnegative barycentric weights summing to at
/// most one (each weight is its numerator over the denominator), and the
/// point the weights reconstruct is exactly the query pixel:
/// `s * (v1 - v0) + t * (v2 - v0) == (x, y) - v0`, scaled by the
/// denominator on both sides.
pub proof fn lemma_barycentric_interior(v0: Vec3i, v1: Vec3i, v2: Vec3i, x: int, y: int)
    requires
        bary_inside(v0, v1, v2, x, y),
    ensures
        bary_den(v0, v1, v2) != 0,
        bary_den(v0, v1, v2) > 0 ==> 0 <= bary_s_num(v0, v1, v2, x, y) && 0 <= bary_t_num(
            v0,
            v1,
            v2,
            x,
            y,
        ) && bary_s_num(v0, v1, v2, x, y) + bary_t_num(v0, v1, v2, x, y) <= bary_den(v0, v1, v2),
        bary_den(v0, v1, v2) < 0 ==> bary_s_num(v0, v1, v2, x, y) <= 0 && bary_t_num(
            v0,
            v1,
            v2,
            x,
            y,
        ) <= 0 && bary_s_num(v0, v1, v2, x, y) + bary_t_num(v0, v1, v2, x, y) >= bary_den(
            v0,
            v1,
            v2,
        ),
        bary_s_num(v0, v1, v2, x, y) * (v1.x - v0.x) + bary_t_num(v0, v1, v2, x, y) * (v2.x - v0.x)
            == (x - v0.x) * bary_den(v0, v1, v2),
        bary_s_num(v0, v1, v2, x, y) * (v1.y - v0.y) + bary_t_num(v0, v1, v2, x, y) * (v2.y - v0.y)
            == (y - v0.y) * bary_den(v0, v1, v2),
{
    lemma_cramer_x(
        v1.x - v0.x,
        v1.y - v0.y,
        v2.x - v0.x,
        v2.y - v0.y,
        x - v0.x,
        y - v0.y,
    );
    lemma_cramer_y(
        v1.x - v0.x,
        v1.y - v0.y,
        v2.x - v0.x,
        v2.y - v0.y,
        x - v0.x,
        y - v0.y,
    );
}

} // verus!
