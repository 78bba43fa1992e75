use vstd::prelude::*;

verus! {

/// Largest accepted buffer side; keeps every index product inside the
/// machine integers the rasterizer uses.
pub const MAX_DIM: usize = 16384;

/// One output pixel: red, green and blue, 0..=255 each by type.
#[derive(Clone, Copy, PartialEq, Eq, Structural, Debug)]
pub struct Rgb {
    pub r: u8,
    pub g: u8,
    pub b: u8,
}

/// Row `y` times width plus column `x`: row-major position of a pixel.
pub open spec fn grid_index(w: int, x: int, y: int) -> int {
    y * w + x
}

/// Distinct in-range pixels occupy distinct row-major positions.
pub proof fn lemma_grid_index_injective(w: int, x1: int, y1: int, x2: int, y2: int)
    by (nonlinear_arith)
    requires
        0 <= x1 < w,
        0 <= x2 < w,
        y1 >= 0,
        y2 >= 0,
    ensures
        grid_index(w, x1, y1) == grid_index(w, x2, y2) ==> x1 == x2 && y1 == y2,
{
}

/// An in-range pixel's row-major position lies inside the grid.
pub proof fn lemma_grid_index_bounds(w: int, h: int, x: int, y: int)
    by (nonlinear_arith)
    requires
        0 <= x < w <= 16384,
        0 <= y < h <= 16384,
    ensures
        0 <= grid_index(w, x, y) < w * h <= 0x1000_0000,
        w * h == h * w,
{
}

/// The whole grid fits comfortably in a machine index.
pub proof fn lemma_dims_product(w: int, h: int)
    by (nonlinear_arith)
    requires
        0 <= w <= 16384,
        0 <= h <= 16384,
    ensures
        0 <= w * h <= 0x1000_0000,
        w * h == h * w,
{
}

/// Dense pixel grid, row-major with a bottom-left origin.
pub struct FrameBuffer {
    pub width: usize,
    pub height: usize,
    pub data: Vec<Rgb>,
}

impl FrameBuffer {
    pub open spec fn wf(self) -> bool {
        &&& self.data@.len() == (self.width as int) * (self.height as int)
        &&& self.width <= MAX_DIM
        &&& self.height <= MAX_DIM
    }

    pub open spec fn spec_width(self) -> int {
        self.width as int
    }

    pub open spec fn spec_height(self) -> int {
        self.height as int
    }

    /// The color stored for pixel `(x, y)`.
    pub open spec fn pixel(self, x: int, y: int) -> Rgb
        recommends
            0 <= x < self.spec_width(),
            0 <= y < self.spec_height(),
    {
        self.data@[grid_index(self.spec_width(), x, y)]
    }

    /// A grid of the given size with every pixel set to the background.
    pub fn new(width: usize, height: usize, background: Rgb) -> (r: FrameBuffer)
        requires
            width <= MAX_DIM,
            height <= MAX_DIM,
        ensures
            r.wf(),
            r.spec_width() == width,
            r.spec_height() == height,
            forall|x: int, y: int|
                0 <= x < width && 0 <= y < height ==> r.pixel(x, y) == background,
    {
        proof {
            lemma_dims_product(width as int, height as int);
        }
        let n = width * height;
        let mut data: Vec<Rgb> = Vec::new();
        let mut i: usize = 0;
        while i < n
            invariant
                i <= n,
                data@.len() == i,
                forall|j: int| 0 <= j < i ==> data@[j] == background,
            decreases n - i,
        {
            data.push(background);
            i = i + 1;
        }
        let r = FrameBuffer { width, height, data };
        proof {
            assert forall|x: int, y: int|
                0 <= x < width && 0 <= y < height implies r.pixel(x, y) == background by {
                lemma_grid_index_bounds(width as int, height as int, x, y);
            }
        }
        r
    }

    pub fn width(&self) -> (r: usize)
        ensures
            r == self.spec_width(),
    {
        self.width
    }

    pub fn height(&self) -> (r: usize)
        ensures
            r == self.spec_height(),
    {
        self.height
    }

    /// Reads the color at an in-range pixel.
    pub fn get_pixel(&self, x: usize, y: usize) -> (r: Rgb)
        requires
            self.wf(),
            x < self.spec_width(),
            y < self.spec_height(),
        ensures
            r == self.pixel(x as int, y as int),
    {
        proof {
            lemma_grid_index_bounds(
                self.spec_width(),
                self.spec_height(),
                x as int,
                y as int,
            );
        }
        self.data[y * self.width + x]
    }

    /// Writes one in-range pixel; every other pixel keeps its color.
    pub fn put_pixel(&mut self, x: usize, y: usize, color: Rgb)
        requires
            old(self).wf(),
            x < old(self).spec_width(),
            y < old(self).spec_height(),
        ensures
            final(self).wf(),
            final(self).spec_width() == old(self).spec_width(),
            final(self).spec_height() == old(self).spec_height(),
            final(self).pixel(x as int, y as int) == color,
            forall|i: int, j: int|
                0 <= i < old(self).spec_width() && 0 <= j < old(self).spec_height() && !(i == x
                    && j == y) ==> final(self).pixel(i, j) == old(self).pixel(i, j),
    {
        proof {
            lemma_grid_index_bounds(
                self.spec_width(),
                self.spec_height(),
                x as int,
                y as int,
            );
        }
        let idx = y * self.width + x;
        self.data.set(idx, color);
        proof {
            assert forall|i: int, j: int|
                0 <= i < old(self).spec_width() && 0 <= j < old(self).spec_height() && !(i == x
                    && j == y) implies final(self).pixel(i, j) == old(self).pixel(i, j) by {
                lemma_grid_index_bounds(old(self).spec_width(), old(self).spec_height(), i, j);
                lemma_grid_index_injective(
                    old(self).spec_width(),
                    i,
                    j,
                    x as int,
                    y as int,
                );
            }
        }
    }
}

impl FrameBuffer {
    /// The grid turned upside down: row `y` of the result is row
    /// `height - 1 - y` of the source.  Rasterization uses a bottom-left
    /// origin; image encoders expect a top-left one.
    pub fn flip_vertical(&self) -> (r: FrameBuffer)
        requires
            self.wf(),
        ensures
            r.wf(),
            r.spec_width() == self.spec_width(),
            r.spec_height() == self.spec_height(),
            forall|x: int, y: int|
                0 <= x < self.spec_width() && 0 <= y < self.spec_height() ==> r.pixel(x, y)
                    == self.pixel(x, self.spec_height() - 1 - y),
    {
        let w = self.width;
        let h = self.height;
        proof {
            lemma_dims_product(w as int, h as int);
        }
        let mut data: Vec<Rgb> = Vec::new();
        let mut y: usize = 0;
        while y < h
            invariant
                self.wf(),
                w == self.spec_width(),
                h == self.spec_height(),
                y <= h,
                data@.len() == y * w,
                forall|x2: int, y2: int|
                    0 <= x2 < w && 0 <= y2 < y ==> data@[grid_index(w as int, x2, y2)]
                        == self.pixel(x2, h - 1 - y2),
            decreases h - y,
        {
            let src_y = h - 1 - y;
            let mut x: usize = 0;
            while x < w
                invariant
                    self.wf(),
                    w == self.spec_width(),
                    h == self.spec_height(),
                    y < h,
                    src_y == h - 1 - y,
                    x <= w,
                    data@.len() == y * w + x,
                    forall|x2: int, y2: int|
                        0 <= x2 < w && 0 <= y2 < y ==> data@[grid_index(w as int, x2, y2)]
                            == self.pixel(x2, h - 1 - y2),
                    forall|x2: int|
                        0 <= x2 < x ==> data@[grid_index(w as int, x2, y as int)] == self.pixel(
                            x2,
                            h - 1 - y,
                        ),
                decreases w - x,
            {
                let p = self.get_pixel(x, src_y);
                data.push(p);
                proof {
                    assert forall|x2: int, y2: int|
                        0 <= x2 < w && 0 <= y2 < y implies data@[grid_index(w as int, x2, y2)]
                        == self.pixel(x2, h - 1 - y2) by {
                        lemma_grid_index_bounds(w as int, y as int, x2, y2);
                    }
                }
                x = x + 1;
            }
            proof {
                assert((y + 1) * (w as int) == y * (w as int) + w) by (nonlinear_arith);
            }
            y = y + 1;
        }
        proof {
            lemma_dims_product(w as int, h as int);
        }
        let r = FrameBuffer { width: w, height: h, data };
        proof {
            assert forall|x: int, y2: int|
                0 <= x < w && 0 <= y2 < h implies r.pixel(x, y2) == self.pixel(
                x,
                h - 1 - y2,
            ) by {
                lemma_grid_index_bounds(w as int, h as int, x, y2);
            }
        }
        r
    }
}

/// Per-pixel record of the nearest depth seen so far; the sentinel
/// `i64::MIN` means nothing has been drawn at that pixel yet.
pub struct DepthBuffer {
    pub width: usize,
    pub height: usize,
    pub data: Vec<i64>,
}

impl DepthBuffer {
    pub open spec fn wf(self) -> bool {
        &&& self.data@.len() == (self.width as int) * (self.height as int)
        &&& self.width <= MAX_DIM
        &&& self.height <= MAX_DIM
    }

    pub open spec fn spec_width(self) -> int {
        self.width as int
    }

    pub open spec fn spec_height(self) -> int {
        self.height as int
    }

    /// The depth stored for pixel `(x, y)`.
    pub open spec fn depth(self, x: int, y: int) -> i64
        recommends
            0 <= x < self.spec_width(),
            0 <= y < self.spec_height(),
    {
        self.data@[grid_index(self.spec_width(), x, y)]
    }

    /// A grid of the given size with every entry at the sentinel.
    pub fn new(width: usize, height: usize) -> (r: DepthBuffer)
        requires
            width <= MAX_DIM,
            height <= MAX_DIM,
        ensures
            r.wf(),
            r.spec_width() == width,
            r.spec_height() == height,
            forall|x: int, y: int|
                0 <= x < width && 0 <= y < height ==> r.depth(x, y) == i64::MIN,
    {
        proof {
            lemma_dims_product(width as int, height as int);
        }
        let n = width * height;
        let mut data: Vec<i64> = Vec::new();
        let mut i: usize = 0;
        while i < n
            invariant
                i <= n,
                data@.len() == i,
                forall|j: int| 0 <= j < i ==> data@[j] == i64::MIN,
            decreases n - i,
        {
            data.push(i64::MIN);
            i = i + 1;
        }
        let r = DepthBuffer { width, height, data };
        proof {
            assert forall|x: int, y: int|
                0 <= x < width && 0 <= y < height implies r.depth(x, y) == i64::MIN by {
                lemma_grid_index_bounds(width as int, height as int, x, y);
            }
        }
        r
    }

    pub fn width(&self) -> (r: usize)
        ensures
            r == self.spec_width(),
    {
        self.width
    }

    pub fn height(&self) -> (r: usize)
        ensures
            r == self.spec_height(),
    {
        self.height
    }

    /// Reads the depth at an in-range pixel.
    pub fn get_depth(&self, x: usize, y: usize) -> (r: i64)
        requires
            self.wf(),
            x < self.spec_width(),
            y < self.spec_height(),
        ensures
            r == self.depth(x as int, y as int),
    {
        proof {
            lemma_grid_index_bounds(
                self.spec_width(),
                self.spec_height(),
                x as int,
                y as int,
            );
        }
        self.data[y * self.width + x]
    }

    /// The depth test: records `d` and reports true exactly when `d` is
    /// strictly nearer than what the pixel has seen; otherwise nothing
    /// changes.  Every entry only ever grows.
    pub fn check_and_update(&mut self, x: usize, y: usize, d: i64) -> (r: bool)
        requires
            old(self).wf(),
            x < old(self).spec_width(),
            y < old(self).spec_height(),
        ensures
            final(self).wf(),
            final(self).spec_width() == old(self).spec_width(),
            final(self).spec_height() == old(self).spec_height(),
            r <==> d > old(self).depth(x as int, y as int),
            r ==> final(self).depth(x as int, y as int) == d,
            !r ==> final(self).depth(x as int, y as int) == old(self).depth(x as int, y as int),
            forall|i: int, j: int|
                0 <= i < old(self).spec_width() && 0 <= j < old(self).spec_height() && !(i == x
                    && j == y) ==> final(self).depth(i, j) == old(self).depth(i, j),
    {
        proof {
            lemma_grid_index_bounds(
                self.spec_width(),
                self.spec_height(),
                x as int,
                y as int,
            );
        }
        let idx = y * self.width + x;
        let current = self.data[idx];
        if d > current {
            self.data.set(idx, d);
            proof {
                assert forall|i: int, j: int|
                    0 <= i < old(self).spec_width() && 0 <= j < old(self).spec_height() && !(i == x
                        && j == y) implies final(self).depth(i, j) == old(self).depth(i, j) by {
                    lemma_grid_index_bounds(old(self).spec_width(), old(self).spec_height(), i, j);
                    lemma_grid_index_injective(
                        old(self).spec_width(),
                        i,
                        j,
                        x as int,
                        y as int,
                    );
                }
            }
            true
        } else {
            false
        }
    }
}

} // verus!
