use vstd::prelude::*;

verus! {

/// Fixed-point scale: object-space scalars carry `ONE` units per 1.0.
/// Coordinates in [-1.0, 1.0] therefore have mantissas in [-ONE, ONE].
pub const ONE: i64 = 65536;

/// Largest mantissa magnitude the vector operations accept; keeps every
/// intermediate product inside `i64`.
pub const COORD_LIMIT: i64 = 0x4000_0000;

/// Why a triangle or a whole mesh was rejected.
#[derive(Clone, Copy, PartialEq, Eq, Structural, Debug)]
pub enum RenderError {
    /// Index or position array length or range violation; fatal for the mesh.
    MalformedMesh,
    /// The zero vector was handed to `normalize`; the owning face is skipped.
    DegenerateVector,
    /// Zero screen-space area; the triangle is skipped.
    DegenerateTriangle,
}

/// Object-space vector: three fixed-point scalars (mantissas at scale `ONE`).
#[derive(Clone, Copy, PartialEq, Eq, Structural, Debug)]
pub struct Vec3 {
    pub x: i64,
    pub y: i64,
    pub z: i64,
}

/// Screen-space vector: integer pixel coordinates plus an integer depth.
#[derive(Clone, Copy, PartialEq, Eq, Structural, Debug)]
pub struct Vec3i {
    pub x: i32,
    pub y: i32,
    pub z: i32,
}

pub open spec fn abs_int(a: int) -> int {
    if a >= 0 {
        a
    } else {
        -a
    }
}

/// Division that rounds toward zero, as the hardware division does.
pub open spec fn div_trunc(a: int, b: int) -> int {
    if (a >= 0) == (b >= 0) {
        abs_int(a) / abs_int(b)
    } else {
        -(abs_int(a) / abs_int(b))
    }
}

/// Dot product of the mantissas.
pub open spec fn dot(a: Vec3, b: Vec3) -> int {
    a.x * b.x + a.y * b.y + a.z * b.z
}

pub open spec fn cross_x(a: Vec3, b: Vec3) -> int {
    a.y * b.z - a.z * b.y
}

pub open spec fn cross_y(a: Vec3, b: Vec3) -> int {
    a.z * b.x - a.x * b.z
}

pub open spec fn cross_z(a: Vec3, b: Vec3) -> int {
    a.x * b.y - a.y * b.x
}

pub open spec fn norm_sq(v: Vec3) -> int {
    dot(v, v)
}

impl Vec3 {
    /// All three mantissas within magnitude `b`.
    pub open spec fn bounded(self, b: int) -> bool {
        &&& -b <= self.x <= b
        &&& -b <= self.y <= b
        &&& -b <= self.z <= b
    }

    pub open spec fn is_zero(self) -> bool {
        self.x == 0 && self.y == 0 && self.z == 0
    }

    pub fn add(&self, other: &Vec3) -> (r: Vec3)
        requires
            i64::MIN <= self.x + other.x <= i64::MAX,
            i64::MIN <= self.y + other.y <= i64::MAX,
            i64::MIN <= self.z + other.z <= i64::MAX,
        ensures
            r.x == self.x + other.x,
            r.y == self.y + other.y,
            r.z == self.z + other.z,
    {
        Vec3 { x: self.x + other.x, y: self.y + other.y, z: self.z + other.z }
    }

    pub fn sub(&self, other: &Vec3) -> (r: Vec3)
        requires
            i64::MIN <= self.x - other.x <= i64::MAX,
            i64::MIN <= self.y - other.y <= i64::MAX,
            i64::MIN <= self.z - other.z <= i64::MAX,
        ensures
            r.x == self.x - other.x,
            r.y == self.y - other.y,
            r.z == self.z - other.z,
    {
        Vec3 { x: self.x - other.x, y: self.y - other.y, z: self.z - other.z }
    }

    /// Dot product of the two vectors.
    pub fn scalar_mul(&self, other: &Vec3) -> (r: i64)
        requires
            self.bounded(COORD_LIMIT as int),
            other.bounded(COORD_LIMIT as int),
        ensures
            r == dot(*self, *other),
    {
        proof {
            lemma_abs_mul_le(self.x as int, other.x as int, COORD_LIMIT as int, COORD_LIMIT as int);
            lemma_abs_mul_le(self.y as int, other.y as int, COORD_LIMIT as int, COORD_LIMIT as int);
            lemma_abs_mul_le(self.z as int, other.z as int, COORD_LIMIT as int, COORD_LIMIT as int);
        }
        self.x * other.x + self.y * other.y + self.z * other.z
    }

    /// Cross product of the mantissas.
    pub fn cross(v1: &Vec3, v2: &Vec3) -> (r: Vec3)
        requires
            v1.bounded(COORD_LIMIT as int),
            v2.bounded(COORD_LIMIT as int),
        ensures
            r.x == cross_x(*v1, *v2),
            r.y == cross_y(*v1, *v2),
            r.z == cross_z(*v1, *v2),
    {
        proof {
            lemma_abs_mul_le(v1.x as int, v2.y as int, COORD_LIMIT as int, COORD_LIMIT as int);
            lemma_abs_mul_le(v1.x as int, v2.z as int, COORD_LIMIT as int, COORD_LIMIT as int);
            lemma_abs_mul_le(v1.y as int, v2.x as int, COORD_LIMIT as int, COORD_LIMIT as int);
            lemma_abs_mul_le(v1.y as int, v2.z as int, COORD_LIMIT as int, COORD_LIMIT as int);
            lemma_abs_mul_le(v1.z as int, v2.x as int, COORD_LIMIT as int, COORD_LIMIT as int);
            lemma_abs_mul_le(v1.z as int, v2.y as int, COORD_LIMIT as int, COORD_LIMIT as int);
        }
        Vec3 {
            x: v1.y * v2.z - v1.z * v2.y,
            y: v1.z * v2.x - v1.x * v2.z,
            z: v1.x * v2.y - v1.y * v2.x,
        }
    }
}

impl Vec3i {
    pub open spec fn bounded(self, b: int) -> bool {
        &&& -b <= self.x <= b
        &&& -b <= self.y <= b
        &&& -b <= self.z <= b
    }

    pub fn add(&self, other: &Vec3i) -> (r: Vec3i)
        requires
            i32::MIN <= self.x + other.x <= i32::MAX,
            i32::MIN <= self.y + other.y <= i32::MAX,
            i32::MIN <= self.z + other.z <= i32::MAX,
        ensures
            r.x == self.x + other.x,
            r.y == self.y + other.y,
            r.z == self.z + other.z,
    {
        Vec3i { x: self.x + other.x, y: self.y + other.y, z: self.z + other.z }
    }

    pub fn sub(&self, other: &Vec3i) -> (r: Vec3i)
        requires
            i32::MIN <= self.x - other.x <= i32::MAX,
            i32::MIN <= self.y - other.y <= i32::MAX,
            i32::MIN <= self.z - other.z <= i32::MAX,
        ensures
            r.x == self.x - other.x,
            r.y == self.y - other.y,
            r.z == self.z - other.z,
    {
        Vec3i { x: self.x - other.x, y: self.y - other.y, z: self.z - other.z }
    }

    /// Componentwise product.
    pub fn mul(&self, other: &Vec3i) -> (r: Vec3i)
        requires
            i32::MIN <= self.x * other.x <= i32::MAX,
            i32::MIN <= self.y * other.y <= i32::MAX,
            i32::MIN <= self.z * other.z <= i32::MAX,
        ensures
            r.x == self.x * other.x,
            r.y == self.y * other.y,
            r.z == self.z * other.z,
    {
        Vec3i { x: self.x * other.x, y: self.y * other.y, z: self.z * other.z }
    }
}

/// `|a * b| <= m * n` whenever `|a| <= m` and `|b| <= n`.
pub proof fn lemma_abs_mul_le(a: int, b: int, m: int, n: int)
    by (nonlinear_arith)
    requires
        -m <= a <= m,
        -n <= b <= n,
    ensures
        -(m * n) <= a * b <= m * n,
{
}

/// Truncated division shrinks: `|a / d| <= m` once `|a| <= m * d`.
pub proof fn lemma_div_trunc_bound(a: int, d: int, m: int)
    requires
        d >= 1,
        m >= 0,
        -(m * d) <= a <= m * d,
    ensures
        -m <= div_trunc(a, d) <= m,
{
    if a >= 0 {
        assert(0 <= a / d <= m) by (nonlinear_arith)
            requires
                d >= 1,
                0 <= a <= m * d,
        ;
    } else {
        assert(0 <= (-a) / d <= m) by (nonlinear_arith)
            requires
                d >= 1,
                0 <= -a <= m * d,
        ;
    }
}

/// Floor of the square root, by counting up.
pub open spec fn sqrt_floor(m: int) -> int
    decreases m,
{
    if m <= 0 {
        0
    } else {
        let p = sqrt_floor(m - 1);
        if (p + 1) * (p + 1) <= m {
            p + 1
        } else {
            p
        }
    }
}

/// `sqrt_floor(m)` is the unique nonnegative root with
/// `r * r <= m < (r + 1) * (r + 1)`.
pub proof fn lemma_sqrt_floor_bounds(m: int)
    requires
        m >= 0,
    ensures
        sqrt_floor(m) >= 0,
        sqrt_floor(m) * sqrt_floor(m) <= m,
        m < (sqrt_floor(m) + 1) * (sqrt_floor(m) + 1),
    decreases m,
{
    if m > 0 {
        lemma_sqrt_floor_bounds(m - 1);
        let p = sqrt_floor(m - 1);
        if (p + 1) * (p + 1) <= m {
            assert(m == (p + 1) * (p + 1));
            assert((p + 1) * (p + 1) < (p + 2) * (p + 2)) by (nonlinear_arith)
                requires
                    p >= 0,
            ;
        }
    }
}

pub proof fn lemma_sqrt_unique(m: int, a: int, b: int)
    by (nonlinear_arith)
    requires
        a >= 0,
        b >= 0,
        a * a <= m,
        m < (a + 1) * (a + 1),
        b * b <= m,
        m < (b + 1) * (b + 1),
    ensures
        a == b,
{
}

/// Integer square root: the floor of the real square root.
pub fn isqrt(m: u64) -> (r: u64)
    ensures
        r == sqrt_floor(m as int),
        r * r <= m,
{
    let mut lo: u64 = 0;
    let mut hi: u64 = 0x1_0000_0000;
    while lo + 1 < hi
        invariant
            lo < hi <= 0x1_0000_0000,
            lo * lo <= m as int,
            (m as int) < hi * hi,
        decreases hi - lo,
    {
        let mid = lo + (hi - lo) / 2;
        proof {
            lemma_abs_mul_le(mid as int, mid as int, 0x1_0000_0000, 0x1_0000_0000);
        }
        if (mid as u128) * (mid as u128) <= (m as u128) {
            lo = mid;
        } else {
            hi = mid;
        }
    }
    proof {
        lemma_sqrt_floor_bounds(m as int);
        lemma_sqrt_unique(m as int, lo as int, sqrt_floor(m as int));
    }
    lo
}

/// Division with truncation toward zero, through unsigned magnitudes.
pub fn div_trunc_i64(a: i64, d: i64) -> (r: i64)
    requires
        a > i64::MIN,
        d > i64::MIN,
        d != 0,
    ensures
        r == div_trunc(a as int, d as int),
        -abs_int(a as int) <= r <= abs_int(a as int),
{
    let ua: u64 = if a >= 0 {
        a as u64
    } else {
        (-a) as u64
    };
    let ud: u64 = if d >= 0 {
        d as u64
    } else {
        (-d) as u64
    };
    let q: u64 = ua / ud;
    proof {
        assert(ua as int / ud as int <= ua as int) by (nonlinear_arith)
            requires
                ud >= 1,
                ua >= 0,
        ;
    }
    if (a >= 0) == (d >= 0) {
        q as i64
    } else {
        -(q as i64)
    }
}

/// `a * b / d` with truncation toward zero.
pub fn mul_div_trunc(a: i64, b: i64, d: i64) -> (r: i64)
    requires
        -COORD_LIMIT <= a <= COORD_LIMIT,
        -COORD_LIMIT <= b <= COORD_LIMIT,
        d > i64::MIN,
        d != 0,
    ensures
        r == div_trunc(a * b, d as int),
        -0x1000_0000_0000_0000 <= r <= 0x1000_0000_0000_0000,
{
    proof {
        lemma_abs_mul_le(a as int, b as int, COORD_LIMIT as int, COORD_LIMIT as int);
    }
    let p: i64 = a * b;
    div_trunc_i64(p, d)
}

impl Vec3 {
    /// Componentwise fixed-point product: mantissas multiply and rescale.
    pub fn mul(&self, other: &Vec3) -> (r: Vec3)
        requires
            self.bounded(COORD_LIMIT as int),
            other.bounded(COORD_LIMIT as int),
        ensures
            r.x == div_trunc(self.x * other.x, ONE as int),
            r.y == div_trunc(self.y * other.y, ONE as int),
            r.z == div_trunc(self.z * other.z, ONE as int),
    {
        Vec3 {
            x: mul_div_trunc(self.x, other.x, ONE),
            y: mul_div_trunc(self.y, other.y, ONE),
            z: mul_div_trunc(self.z, other.z, ONE),
        }
    }

    /// Fixed-point scalar multiply.
    pub fn scale(&self, k: i64) -> (r: Vec3)
        requires
            self.bounded(COORD_LIMIT as int),
            -COORD_LIMIT <= k <= COORD_LIMIT,
        ensures
            r.x == div_trunc(self.x * k, ONE as int),
            r.y == div_trunc(self.y * k, ONE as int),
            r.z == div_trunc(self.z * k, ONE as int),
    {
        Vec3 {
            x: mul_div_trunc(self.x, k, ONE),
            y: mul_div_trunc(self.y, k, ONE),
            z: mul_div_trunc(self.z, k, ONE),
        }
    }

    /// Fixed-point scalar divide.
    pub fn div_scalar(&self, k: i64) -> (r: Vec3)
        requires
            self.bounded(COORD_LIMIT as int),
            k != 0,
            -COORD_LIMIT <= k <= COORD_LIMIT,
        ensures
            r.x == div_trunc(self.x * ONE, k as int),
            r.y == div_trunc(self.y * ONE, k as int),
            r.z == div_trunc(self.z * ONE, k as int),
    {
        Vec3 {
            x: mul_div_trunc(self.x, ONE, k),
            y: mul_div_trunc(self.y, ONE, k),
            z: mul_div_trunc(self.z, ONE, k),
        }
    }

    /// Euclidean norm of the mantissas, rounded down.  At scale `ONE` this
    /// is the fixed-point length of the vector.
    pub fn norm(&self) -> (r: i64)
        requires
            self.bounded(COORD_LIMIT as int),
        ensures
            r >= 0,
            r == sqrt_floor(norm_sq(*self)),
    {
        proof {
            lemma_abs_mul_le(self.x as int, self.x as int, COORD_LIMIT as int, COORD_LIMIT as int);
            lemma_abs_mul_le(self.y as int, self.y as int, COORD_LIMIT as int, COORD_LIMIT as int);
            lemma_abs_mul_le(self.z as int, self.z as int, COORD_LIMIT as int, COORD_LIMIT as int);
            lemma_square_nonneg(self.x as int);
            lemma_square_nonneg(self.y as int);
            lemma_square_nonneg(self.z as int);
        }
        let sq: i64 = self.x * self.x + self.y * self.y + self.z * self.z;
        let r = isqrt(sq as u64);
        proof {
            assert(r < 0x1_0000_0000) by (nonlinear_arith)
                requires
                    r * r <= sq as int,
                    sq <= i64::MAX,
                    r >= 0,
            ;
        }
        r as i64
    }

    /// Scale to unit length (mantissa `ONE`), truncating each component
    /// toward zero; the zero vector has no direction and is rejected.
    pub fn normalize(&self) -> (r: Result<Vec3, RenderError>)
        requires
            self.bounded(COORD_LIMIT as int),
        ensures
            r is Err <==> self.is_zero(),
            r is Err ==> r == Err::<Vec3, RenderError>(RenderError::DegenerateVector),
            r is Ok ==> ({
                let n = sqrt_floor(norm_sq(*self));
                &&& n >= 1
                &&& r->Ok_0.x == div_trunc(self.x * ONE, n)
                &&& r->Ok_0.y == div_trunc(self.y * ONE, n)
                &&& r->Ok_0.z == div_trunc(self.z * ONE, n)
            }),
    {
        if self.x == 0 && self.y == 0 && self.z == 0 {
            return Err(RenderError::DegenerateVector);
        }
        proof {
            lemma_square_nonneg(self.x as int);
            lemma_square_nonneg(self.y as int);
            lemma_square_nonneg(self.z as int);
            lemma_nonzero_square_ge_one(self.x as int);
            lemma_nonzero_square_ge_one(self.y as int);
            lemma_nonzero_square_ge_one(self.z as int);
            assert(norm_sq(*self) >= 1);
            lemma_sqrt_floor_bounds(norm_sq(*self));
            let s = sqrt_floor(norm_sq(*self));
            assert(s >= 1) by {
                if s == 0 {
                    assert((s + 1) * (s + 1) == 1) by (nonlinear_arith)
                        requires
                            s == 0,
                    ;
                }
            }
        }
        let n = self.norm();
        Ok(Vec3 {
            x: mul_div_trunc(self.x, ONE, n),
            y: mul_div_trunc(self.y, ONE, n),
            z: mul_div_trunc(self.z, ONE, n),
        })
    }
}

pub proof fn lemma_square_nonneg(a: int)
    by (nonlinear_arith)
    ensures
        a * a >= 0,
{
}

pub proof fn lemma_nonzero_square_ge_one(a: int)
    by (nonlinear_arith)
    ensures
        a != 0 ==> a * a >= 1,
{
}


/// The cross product swaps sign when its arguments swap.
pub proof fn lemma_cross_antisymmetric(a: Vec3, b: Vec3)
    ensures
        cross_x(a, b) == -cross_x(b, a),
        cross_y(a, b) == -cross_y(b, a),
        cross_z(a, b) == -cross_z(b, a),
{
    assert(a.y * b.z == b.z * a.y) by (nonlinear_arith);
    assert(a.z * b.y == b.y * a.z) by (nonlinear_arith);
    assert(a.z * b.x == b.x * a.z) by (nonlinear_arith);
    assert(a.x * b.z == b.z * a.x) by (nonlinear_arith);
    assert(a.x * b.y == b.y * a.x) by (nonlinear_arith);
    assert(a.y * b.x == b.x * a.y) by (nonlinear_arith);
}

/// The dot product does not depend on argument order.
pub proof fn lemma_dot_symmetric(a: Vec3, b: Vec3)
    ensures
        dot(a, b) == dot(b, a),
{
    assert(a.x * b.x == b.x * a.x) by (nonlinear_arith);
    assert(a.y * b.y == b.y * a.y) by (nonlinear_arith);
    assert(a.z * b.z == b.z * a.z) by (nonlinear_arith);
}

/// The normalized vector points the way the input does: each component of
/// `normalize`'s result is the exact truncation of `v * ONE / |v|`, so it
/// keeps the component's sign and sits within one part in `|v|` of the
/// collinear rational value.
pub proof fn lemma_normalize_collinear(v: Vec3)
    requires
        v.bounded(COORD_LIMIT as int),
        !v.is_zero(),
    ensures
        ({
            let n = sqrt_floor(norm_sq(v));
            let ux = div_trunc(v.x * (ONE as int), n);
            let uy = div_trunc(v.y * (ONE as int), n);
            let uz = div_trunc(v.z * (ONE as int), n);
            &&& n >= 1
            &&& (v.x >= 0 ==> ux >= 0 && n * ux <= v.x * ONE < n * ux + n)
            &&& (v.x < 0 ==> ux <= 0 && n * ux - n < v.x * ONE <= n * ux)
            &&& (v.y >= 0 ==> uy >= 0 && n * uy <= v.y * ONE < n * uy + n)
            &&& (v.y < 0 ==> uy <= 0 && n * uy - n < v.y * ONE <= n * uy)
            &&& (v.z >= 0 ==> uz >= 0 && n * uz <= v.z * ONE < n * uz + n)
            &&& (v.z < 0 ==> uz <= 0 && n * uz - n < v.z * ONE <= n * uz)
        }),
{
    lemma_square_nonneg(v.x as int);
    lemma_square_nonneg(v.y as int);
    lemma_square_nonneg(v.z as int);
    lemma_nonzero_square_ge_one(v.x as int);
    lemma_nonzero_square_ge_one(v.y as int);
    lemma_nonzero_square_ge_one(v.z as int);
    assert(norm_sq(v) >= 1);
    lemma_sqrt_floor_bounds(norm_sq(v));
    let n = sqrt_floor(norm_sq(v));
    assert(n >= 1) by {
        if n == 0 {
            assert((n + 1) * (n + 1) == 1) by (nonlinear_arith)
                requires
                    n == 0,
            ;
        }
    }
    lemma_trunc_div_step(v.x * (ONE as int), n);
    lemma_trunc_div_step(v.y * (ONE as int), n);
    lemma_trunc_div_step(v.z * (ONE as int), n);
    assert(v.x >= 0 ==> v.x * ONE >= 0) by (nonlinear_arith);
    assert(v.x < 0 ==> v.x * ONE < 0) by (nonlinear_arith);
    assert(v.y >= 0 ==> v.y * ONE >= 0) by (nonlinear_arith);
    assert(v.y < 0 ==> v.y * ONE < 0) by (nonlinear_arith);
    assert(v.z >= 0 ==> v.z * ONE >= 0) by (nonlinear_arith);
    assert(v.z < 0 ==> v.z * ONE < 0) by (nonlinear_arith);
}

/// Truncating division brackets its argument within one divisor either
/// side of zero.
pub proof fn lemma_trunc_div_step(a: int, n: int)
    requires
        n >= 1,
    ensures
        a >= 0 ==> div_trunc(a, n) >= 0 && n * div_trunc(a, n) <= a < n * div_trunc(a, n) + n,
        a < 0 ==> div_trunc(a, n) <= 0 && n * div_trunc(a, n) - n < a <= n * div_trunc(a, n),
{
    if a >= 0 {
        assert(a / n >= 0 && n * (a / n) <= a < n * (a / n) + n) by (nonlinear_arith)
            requires
                a >= 0,
                n >= 1,
        ;
    } else {
        assert((-a) / n >= 0 && n * ((-a) / n) <= -a < n * ((-a) / n) + n) by (nonlinear_arith)
            requires
                -a >= 0,
                n >= 1,
        ;
        assert(n * (-((-a) / n)) == -(n * ((-a) / n))) by (nonlinear_arith);
    }
}


/// Squaring keeps order on the nonnegatives.
proof fn lemma_sq_mono(x: int, y: int)
    by (nonlinear_arith)
    requires
        0 <= x <= y,
    ensures
        x * x <= y * y,
{
}

/// Strictly smaller square, strictly smaller nonnegative root.
proof fn lemma_sq_strict(x: int, y: int)
    by (nonlinear_arith)
    requires
        0 <= x,
        0 <= y,
        x * x < y * y,
    ensures
        x < y,
{
}

/// `normalize` yields a vector of unit norm up to integer rounding: for
/// any vector at least one unit long, the squared norm of the normalized
/// vector lies within a few parts in `ONE` of `ONE` squared.
pub proof fn lemma_normalize_unit_norm(v: Vec3)
    requires
        v.bounded(COORD_LIMIT as int),
        norm_sq(v) >= (ONE as int) * (ONE as int),
    ensures
        ({
            let n = sqrt_floor(norm_sq(v));
            let ux = div_trunc(v.x * ONE, n);
            let uy = div_trunc(v.y * ONE, n);
            let uz = div_trunc(v.z * ONE, n);
            let s = ONE as int;
            s * s - 6 * s - 3 < ux * ux + uy * uy + uz * uz <= s * s + 2 * s
        }),
{
    let s = ONE as int;
    let m = norm_sq(v);
    lemma_sqrt_floor_bounds(m);
    let n = sqrt_floor(m);
    assert(n >= s) by {
        if n < s {
            lemma_sq_mono(n + 1, s);
            assert((n + 1) * (n + 1) <= s * s);
        }
    }
    let ax = abs_int(v.x * s);
    let ay = abs_int(v.y * s);
    let az = abs_int(v.z * s);
    let qx = ax / n;
    let qy = ay / n;
    let qz = az / n;
    let ux = div_trunc(v.x * s, n);
    let uy = div_trunc(v.y * s, n);
    let uz = div_trunc(v.z * s, n);
    assert(ux * ux == qx * qx && uy * uy == qy * qy && uz * uz == qz * qz) by (nonlinear_arith)
        requires
            ux == qx || ux == -qx,
            uy == qy || uy == -qy,
            uz == qz || uz == -qz,
    ;
    // Division theorem for each magnitude.
    assert(qx >= 0 && n * qx <= ax < n * qx + n) by (nonlinear_arith)
        requires
            ax >= 0,
            n >= 1,
            qx == ax / n,
    ;
    assert(qy >= 0 && n * qy <= ay < n * qy + n) by (nonlinear_arith)
        requires
            ay >= 0,
            n >= 1,
            qy == ay / n,
    ;
    assert(qz >= 0 && n * qz <= az < n * qz + n) by (nonlinear_arith)
        requires
            az >= 0,
            n >= 1,
            qz == az / n,
    ;
    // Components are no longer than the vector: |v.i| <= n.
    lemma_square_nonneg(v.x as int);
    lemma_square_nonneg(v.y as int);
    lemma_square_nonneg(v.z as int);
    assert(-n <= v.x <= n) by (nonlinear_arith)
        requires
            v.x * v.x + v.y * v.y + v.z * v.z < (n + 1) * (n + 1),
            v.y * v.y >= 0,
            v.z * v.z >= 0,
            n >= 0,
    ;
    assert(-n <= v.y <= n) by (nonlinear_arith)
        requires
            v.x * v.x + v.y * v.y + v.z * v.z < (n + 1) * (n + 1),
            v.x * v.x >= 0,
            v.z * v.z >= 0,
            n >= 0,
    ;
    assert(-n <= v.z <= n) by (nonlinear_arith)
        requires
            v.x * v.x + v.y * v.y + v.z * v.z < (n + 1) * (n + 1),
            v.x * v.x >= 0,
            v.y * v.y >= 0,
            n >= 0,
    ;
    // Magnitudes and their squares: ax = |v.x| * s, so ax^2 = v.x^2 * s^2.
    assert(ax <= n * s && ax * ax == (v.x * v.x) * (s * s)) by (nonlinear_arith)
        requires
            ax == abs_int(v.x * s),
            -n <= v.x <= n,
            s >= 1,
            n >= 1,
            (v.x >= 0 ==> ax == v.x * s) && (v.x < 0 ==> ax == -(v.x * s)),
    ;
    assert(ay <= n * s && ay * ay == (v.y * v.y) * (s * s)) by (nonlinear_arith)
        requires
            -n <= v.y <= n,
            s >= 1,
            n >= 1,
            (v.y >= 0 ==> ay == v.y * s) && (v.y < 0 ==> ay == -(v.y * s)),
    ;
    assert(az <= n * s && az * az == (v.z * v.z) * (s * s)) by (nonlinear_arith)
        requires
            -n <= v.z <= n,
            s >= 1,
            n >= 1,
            (v.z >= 0 ==> az == v.z * s) && (v.z < 0 ==> az == -(v.z * s)),
    ;
    // Sum of squared magnitudes is the squared norm at scale s.
    assert(ax * ax + ay * ay + az * az == m * (s * s)) by (nonlinear_arith)
        requires
            ax * ax == (v.x * v.x) * (s * s),
            ay * ay == (v.y * v.y) * (s * s),
            az * az == (v.z * v.z) * (s * s),
            m == v.x * v.x + v.y * v.y + v.z * v.z,
    ;
    // Each quotient is at most s.
    assert(qx <= s && qy <= s && qz <= s) by (nonlinear_arith)
        requires
            n * qx <= ax,
            n * qy <= ay,
            n * qz <= az,
            ax <= n * s,
            ay <= n * s,
            az <= n * s,
            n >= 1,
            qx >= 0,
            qy >= 0,
            qz >= 0,
    ;
    // Squares of the division relations, one component at a time.
    assert(n * n * (qx * qx) <= ax * ax) by (nonlinear_arith)
        requires
            0 <= n * qx <= ax,
    ;
    assert(n * n * (qy * qy) <= ay * ay) by (nonlinear_arith)
        requires
            0 <= n * qy <= ay,
    ;
    assert(n * n * (qz * qz) <= az * az) by (nonlinear_arith)
        requires
            0 <= n * qz <= az,
    ;
    let qq = qx * qx + qy * qy + qz * qz;
    assert(n * n * qq == n * n * (qx * qx) + n * n * (qy * qy) + n * n * (qz * qz))
        by (nonlinear_arith)
        requires
            qq == qx * qx + qy * qy + qz * qz,
    ;
    assert(n * n * qq <= m * (s * s));
    // Upper bound on the squared norm of the quotients.
    assert(qq <= s * s + 2 * s) by {
        if qq > s * s + 2 * s {
            assert(n * n * ((s + 1) * (s + 1)) <= n * n * qq) by (nonlinear_arith)
                requires
                    qq >= (s + 1) * (s + 1),
                    n >= 1,
            ;
            assert(m * (s * s) < ((n + 1) * (n + 1)) * (s * s)) by (nonlinear_arith)
                requires
                    m < (n + 1) * (n + 1),
                    s >= 1,
            ;
            assert((n * (s + 1)) * (n * (s + 1)) == n * n * ((s + 1) * (s + 1)))
                by (nonlinear_arith);
            assert(((n + 1) * s) * ((n + 1) * s) == ((n + 1) * (n + 1)) * (s * s))
                by (nonlinear_arith);
            assert((n * (s + 1)) * (n * (s + 1)) < ((n + 1) * s) * ((n + 1) * s));
            assert(n * (s + 1) >= 0 && (n + 1) * s >= 0) by (nonlinear_arith)
                requires
                    n >= 1,
                    s >= 1,
            ;
            lemma_sq_strict(n * (s + 1), (n + 1) * s);
            assert(n * (s + 1) == n * s + n && (n + 1) * s == n * s + s) by (nonlinear_arith);
            assert(false);
        }
    }
    // Lower bound on the squared norm of the quotients.
    assert(qq > s * s - 6 * s - 3) by {
        assert(ax * ax < n * n * (qx * qx) + n * n * (2 * qx + 1)) by (nonlinear_arith)
            requires
                0 <= ax < n * qx + n,
                n >= 1,
                qx >= 0,
        ;
        assert(ay * ay < n * n * (qy * qy) + n * n * (2 * qy + 1)) by (nonlinear_arith)
            requires
                0 <= ay < n * qy + n,
                n >= 1,
                qy >= 0,
        ;
        assert(az * az < n * n * (qz * qz) + n * n * (2 * qz + 1)) by (nonlinear_arith)
            requires
                0 <= az < n * qz + n,
                n >= 1,
                qz >= 0,
        ;
        assert(n * n * (s * s) <= m * (s * s)) by (nonlinear_arith)
            requires
                n * n <= m,
                s >= 1,
        ;
        let b = 2 * (qx + qy + qz) + 3;
        assert(n * n * b == n * n * (2 * qx + 1) + n * n * (2 * qy + 1) + n * n * (2 * qz + 1))
            by (nonlinear_arith)
            requires
                b == 2 * (qx + qy + qz) + 3,
        ;
        assert(n * n * (s * s) < n * n * qq + n * n * b);
        assert(n * n * (qq + b) == n * n * qq + n * n * b) by (nonlinear_arith);
        assert(s * s < qq + b) by (nonlinear_arith)
            requires
                n * n * (s * s) < n * n * (qq + b),
                n >= 1,
        ;
        assert(qx + qy + qz <= 3 * s);
    }
}

} // verus!
