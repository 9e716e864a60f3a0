//! Points in homogeneous space, 4x4 transforms and triangles.
use vstd::prelude::*;

use crate::fixed::{
    floor_div, in_range, isqrt, lemma_root_exists, root, lemma_mul_in_range, trunc_div, trunc_div_wide, mul_wide, sat, saturate, Coord, COORD_MAX, ONE,
};

verus! {

use vstd::arithmetic::mul::lemma_mul_is_distributive_add_other_way;

/// The Euclidean point `(x, y, z)` with an implicit `w` of one.
#[derive(Clone, Copy, Debug, PartialEq, Eq, Structural)]
pub struct Point {
    pub x: Coord,
    pub y: Coord,
    pub z: Coord,
}

/// `ONE / 3`, the weight of each vertex in a centroid.
pub const THIRD: i64 = 21845;

/// The result of a homogeneous divide `n / w`, where `n` carries one more
/// factor of `ONE` than a coordinate does; `w` is nonzero.
pub open spec fn hdiv(n: int, w: int) -> int {
    if w > 0 {
        sat((n * ONE) / w)
    } else {
        sat((-n * ONE) / (-w))
    }
}

/// Product of two raw values, in raw units.
pub open spec fn fx_mul(a: int, b: int) -> int {
    sat((a * b) / (ONE as int))
}

/// The homogeneous divide `n / w` (see `hdiv`).
fn hdiv_wide(n: i128, w: i128) -> (r: Coord)
    requires
        w != 0,
        -0x1_0000_0000_0000_0000_0000_0000 <= n <= 0x1_0000_0000_0000_0000_0000_0000,
        -0x1_0000_0000_0000_0000_0000_0000 <= w <= 0x1_0000_0000_0000_0000_0000_0000,
    ensures
        r == hdiv(n as int, w as int),
        in_range(r as int),
{
    if w > 0 {
        saturate(floor_div(n * 65536, w))
    } else {
        saturate(floor_div(-n * 65536, -w))
    }
}

impl Point {
    /// All coordinates lie in the range of coordinates.
    pub open spec fn wf(self) -> bool {
        in_range(self.x as int) && in_range(self.y as int) && in_range(self.z as int)
    }

    pub open spec fn add_spec(self, o: Point) -> Point {
        Point { x: sat(self.x + o.x) as i64, y: sat(self.y + o.y) as i64, z: sat(self.z + o.z) as i64 }
    }

    pub open spec fn sub_spec(self, o: Point) -> Point {
        Point { x: sat(self.x - o.x) as i64, y: sat(self.y - o.y) as i64, z: sat(self.z - o.z) as i64 }
    }

    pub open spec fn mul_scalar_spec(self, s: int) -> Point {
        Point { x: fx_mul(self.x as int, s) as i64, y: fx_mul(self.y as int, s) as i64, z: fx_mul(self.z as int, s) as i64 }
    }

    /// The sum of the products of the coordinates, raw units squared.
    pub open spec fn dot_raw(self, o: Point) -> int {
        self.x * o.x + self.y * o.y + self.z * o.z
    }

    pub open spec fn dot_spec(self, o: Point) -> int {
        sat(self.dot_raw(o) / (ONE as int))
    }

    pub open spec fn cross_spec(self, o: Point) -> Point {
        Point {
            x: sat(trunc_div(self.y * o.z - self.z * o.y, ONE as int)) as i64,
            y: sat(trunc_div(self.z * o.x - self.x * o.z, ONE as int)) as i64,
            z: sat(trunc_div(self.x * o.y - self.y * o.x, ONE as int)) as i64,
        }
    }

    /// The squared length, raw units squared.
    pub open spec fn norm_sq(self) -> int {
        self.dot_raw(self)
    }

    /// The length, raw: the integer square root of the squared length.
    pub open spec fn magnitude_spec(self) -> int {
        root(self.norm_sq())
    }

    /// The length at a resolution `ONE` times finer than a raw unit: the
    /// integer square root of `|p|^2 * ONE^2`.
    pub open spec fn fine_magnitude(self) -> int {
        root(self.norm_sq() * 4294967296)
    }

    /// The point scaled to unit length (`ONE`), each coordinate rounded
    /// toward zero; the zero point stays zero.
    pub open spec fn unit_spec(self) -> Point {
        if self.norm_sq() == 0 {
            self
        } else {
            let f = self.fine_magnitude();
            Point {
                x: sat(trunc_div(self.x * 4294967296, f)) as i64,
                y: sat(trunc_div(self.y * 4294967296, f)) as i64,
                z: sat(trunc_div(self.z * 4294967296, f)) as i64,
            }
        }
    }

    /// The point whose homogeneous coordinates are `(x, y, z, w)` (raw).
    pub open spec fn from_homogeneous(x: int, y: int, z: int, w: int) -> Point {
        Point { x: hdiv(x, w) as i64, y: hdiv(y, w) as i64, z: hdiv(z, w) as i64 }
    }

    pub fn add(self, other: Point) -> (r: Point)
        requires
            self.wf(),
            other.wf(),
        ensures
            r == self.add_spec(other),
            r.wf(),
    {
        Point {
            x: saturate(self.x as i128 + other.x as i128),
            y: saturate(self.y as i128 + other.y as i128),
            z: saturate(self.z as i128 + other.z as i128),
        }
    }

    pub fn sub(self, other: Point) -> (r: Point)
        requires
            self.wf(),
            other.wf(),
        ensures
            r == self.sub_spec(other),
            r.wf(),
    {
        Point {
            x: saturate(self.x as i128 - other.x as i128),
            y: saturate(self.y as i128 - other.y as i128),
            z: saturate(self.z as i128 - other.z as i128),
        }
    }

    /// The point with homogeneous coordinates `(x, y, z, w)`, if `w` is nonzero.
    pub open spec fn from_coords(x: Coord, y: Coord, z: Coord, w: Coord) -> Option<Point> {
        if w == 0 {
            None
        } else {
            Some(Point::from_homogeneous(x as int, y as int, z as int, w as int))
        }
    }

    /// The point with homogeneous coordinates `arr`, or `None` where its
    /// `w` (the last entry) is zero.
    pub fn from_array(arr: [Coord; 4]) -> (r: Option<Point>)
        ensures
            r == Point::from_coords(arr[0], arr[1], arr[2], arr[3]),
            r matches Some(p) ==> p.wf(),
    {
        if arr[3] == 0 {
            None
        } else {
            Some(
                Point {
                    x: hdiv_wide(arr[0] as i128, arr[3] as i128),
                    y: hdiv_wide(arr[1] as i128, arr[3] as i128),
                    z: hdiv_wide(arr[2] as i128, arr[3] as i128),
                },
            )
        }
    }

    /// The point with homogeneous coordinates `v`: missing coordinates are
    /// zero, a missing `w` is one, entries past the fourth are ignored.
    /// `None` where `w` is zero.
    pub fn from_vec(v: Vec<Coord>) -> (r: Option<Point>)
        ensures
            r == Point::from_coords(
                Point::entry_or(v@, 0, 0),
                Point::entry_or(v@, 1, 0),
                Point::entry_or(v@, 2, 0),
                Point::entry_or(v@, 3, ONE),
            ),
    {
        let x = if v.len() > 0 { v[0] } else { 0 };
        let y = if v.len() > 1 { v[1] } else { 0 };
        let z = if v.len() > 2 { v[2] } else { 0 };
        let w = if v.len() > 3 { v[3] } else { ONE };
        Point::from_array([x, y, z, w])
    }

    /// Entry `i` of `v`, or `d` where `v` is shorter.
    pub open spec fn entry_or(v: Seq<Coord>, i: int, d: Coord) -> Coord {
        if i < v.len() { v[i] } else { d }
    }

    /// The homogeneous coordinates, with a `w` of one.
    pub fn to_array(self) -> (r: [Coord; 4])
        ensures
            r@ == seq![self.x, self.y, self.z, ONE],
    {
        let r = [self.x, self.y, self.z, ONE];
        assert(r@ =~= seq![self.x, self.y, self.z, ONE]);
        r
    }

    /// Scales by the raw scalar `s`.
    pub fn mul_scalar(self, s: Coord) -> (r: Point)
        requires
            self.wf(),
        ensures
            r == self.mul_scalar_spec(s as int),
            r.wf(),
    {
        Point {
            x: saturate(floor_div(mul_wide(self.x, s), ONE as i128)),
            y: saturate(floor_div(mul_wide(self.y, s), ONE as i128)),
            z: saturate(floor_div(mul_wide(self.z, s), ONE as i128)),
        }
    }

    /// The sum of the coordinate products, exact and wide.
    fn dot_wide(self, other: Point) -> (r: i128)
        requires
            self.wf(),
            other.wf(),
        ensures
            r == self.dot_raw(other),
            -0xC000_0000_0000_0000_0000_0000 <= r <= 0xC000_0000_0000_0000_0000_0000,
    {
        proof {
            lemma_mul_in_range(self.x as int, other.x as int);
            lemma_mul_in_range(self.y as int, other.y as int);
            lemma_mul_in_range(self.z as int, other.z as int);
        }
        mul_wide(self.x, other.x) + mul_wide(self.y, other.y) + mul_wide(self.z, other.z)
    }

    pub fn dot(self, other: Point) -> (r: Coord)
        requires
            self.wf(),
            other.wf(),
        ensures
            r == self.dot_spec(other),
            in_range(r as int),
    {
        saturate(floor_div(self.dot_wide(other), ONE as i128))
    }

    /// `a * b - c * d` over coordinates, divided by `ONE` rounding toward
    /// zero, saturated.
    fn cross_term(a: Coord, b: Coord, c: Coord, d: Coord) -> (r: Coord)
        requires
            in_range(a as int),
            in_range(b as int),
            in_range(c as int),
            in_range(d as int),
        ensures
            r == sat(trunc_div(a * b - c * d, ONE as int)),
    {
        proof {
            lemma_mul_in_range(a as int, b as int);
            lemma_mul_in_range(c as int, d as int);
        }
        saturate(trunc_div_wide(mul_wide(a, b) - mul_wide(c, d), ONE as i128))
    }

    pub fn cross(self, other: Point) -> (r: Point)
        requires
            self.wf(),
            other.wf(),
        ensures
            r == self.cross_spec(other),
            r.wf(),
    {
        Point {
            x: Self::cross_term(self.y, other.z, self.z, other.y),
            y: Self::cross_term(self.z, other.x, self.x, other.z),
            z: Self::cross_term(self.x, other.y, self.y, other.x),
        }
    }

    /// The Euclidean length, raw: the integer square root of the squared length.
    pub fn magnitude(self) -> (r: Coord)
        requires
            self.wf(),
        ensures
            r == self.magnitude_spec(),
            0 <= r <= 0x1_0000_0000_0000,
    {
        let n = self.dot_wide(self);
        assert(n >= 0) by (nonlinear_arith)
            requires
                n == self.x * self.x + self.y * self.y + self.z * self.z,
        ;
        let r = isqrt(n as u128);
        assert(r <= 0x1_0000_0000_0000) by (nonlinear_arith)
            requires
                r * r <= n,
                n <= 0x1_0000_0000_0000_0000_0000_0000,
        ;
        r as i64
    }

    /// The point scaled to length `ONE`, rounded toward zero; the zero point
    /// is returned as it is. A nonzero point gives a point of squared length
    /// within `6 * ONE + 3` of `ONE * ONE` that points the same way.
    pub fn normalized(self) -> (r: Point)
        requires
            self.wf(),
        ensures
            r == self.unit_spec(),
            r.wf(),
            self.norm_sq() != 0 ==> ONE * ONE - 6 * ONE - 3 < r.norm_sq() < (ONE + 1) * (ONE + 1),
            self.norm_sq() != 0 ==> r.dot_raw(self) > 0,
    {
        let n = self.dot_wide(self);
        if n == 0 {
            return self;
        }
        assert(n > 0) by (nonlinear_arith)
            requires
                n == self.x * self.x + self.y * self.y + self.z * self.z,
                n != 0,
        ;
        let m = (n as u128) * 4294967296;
        let f = isqrt(m);
        proof {
            lemma_unit_bounds(self);
        }
        assert(0 < f <= 0x1_0000_0000_0000_0000) by (nonlinear_arith)
            requires
                f * f <= m,
                m < (f + 1) * (f + 1),
                m >= 4294967296,
                m < 0x1_0000_0000_0000_0000_0000_0000_0000_0000,
        {
            if f > 0x1_0000_0000_0000_0000 {
                assert(f * f > 0x1_0000_0000_0000_0000 * 0x1_0000_0000_0000_0000);
            }
        }
        Point {
            x: saturate(trunc_div_wide(self.x as i128 * 4294967296, f as i128)),
            y: saturate(trunc_div_wide(self.y as i128 * 4294967296, f as i128)),
            z: saturate(trunc_div_wide(self.z as i128 * 4294967296, f as i128)),
        }
    }
}

/// `t = trunc_div(a, f)` bounds `|a|` between `|t| f` and `(|t| + 1) f`,
/// and has the sign of `a`.
proof fn lemma_trunc_bounds(a: int, f: int)
    requires
        f > 0,
    ensures
        ({
            let t = trunc_div(a, f);
            let q = if t >= 0 { t } else { -t };
            let aa = if a >= 0 { a } else { -a };
            &&& q * f <= aa < (q + 1) * f
            &&& q * f * (q * f) <= aa * aa
            &&& aa * aa < (q + 1) * f * ((q + 1) * f)
            &&& t * a >= 0
            &&& (t != 0 ==> t * a >= q * f)
        }),
{
    let t = trunc_div(a, f);
    let aa = if a >= 0 { a } else { -a };
    let q = aa / f;
    vstd::arithmetic::div_mod::lemma_fundamental_div_mod(aa, f);
    let r = aa % f;
    assert(0 <= r < f) by {
        vstd::arithmetic::div_mod::lemma_mod_bound(aa, f);
    }
    assert(q >= 0) by {
        vstd::arithmetic::div_mod::lemma_div_pos_is_pos(aa, f);
    }
    assert(q * f <= aa < (q + 1) * f) by (nonlinear_arith)
        requires
            aa == f * q + r,
            0 <= r < f,
    ;
    assert(q * f * (q * f) <= aa * aa && aa * aa < (q + 1) * f * ((q + 1) * f)) by (nonlinear_arith)
        requires
            0 <= q * f <= aa < (q + 1) * f,
    ;
    assert(q * aa >= q * (q * f)) by (nonlinear_arith)
        requires
            q >= 0,
            q * f <= aa,
    ;
    assert(q * (q * f) >= q * f) by (nonlinear_arith)
        requires
            q >= 0,
            f > 0,
    {
        if q > 0 {
            assert(q * (q * f) >= 1 * (q * f));
        }
    }
    assert(q * aa >= 0) by (nonlinear_arith)
        requires
            q >= 0,
            aa >= 0,
    ;
    if a < 0 {
        assert(t * a == q * aa) by (nonlinear_arith)
            requires
                t == -q,
                a == -aa,
        ;
    } else {
        assert(t * a == q * aa);
    }
}

/// Normalizing a nonzero point gives nearly unit length, the same way.
pub proof fn lemma_unit_bounds(p: Point)
    requires
        p.wf(),
        p.norm_sq() != 0,
    ensures
        p.unit_spec().wf(),
        ONE * ONE - 6 * ONE - 3 < p.unit_spec().norm_sq() < (ONE + 1) * (ONE + 1),
        p.unit_spec().dot_raw(p) > 0,
        p.fine_magnitude() >= ONE,
{
    let (x, y, z) = (p.x as int, p.y as int, p.z as int);
    let n = p.norm_sq();
    assert(n >= 1) by (nonlinear_arith)
        requires
            n == x * x + y * y + z * z,
            n != 0,
    ;
    let m = n * 4294967296;
    lemma_root_exists(m);
    let f = root(m);
    assert(f >= 65536) by (nonlinear_arith)
        requires
            m < (f + 1) * (f + 1),
            m >= 4294967296,
            f >= 0,
    {
        if f < 65536 {
            assert((f + 1) * (f + 1) <= 65536 * 65536);
        }
    }
    let (ax, ay, az) = (x * 4294967296, y * 4294967296, z * 4294967296);
    lemma_trunc_bounds(ax, f);
    lemma_trunc_bounds(ay, f);
    lemma_trunc_bounds(az, f);
    let (tx, ty, tz) = (trunc_div(ax, f), trunc_div(ay, f), trunc_div(az, f));
    let qx = if tx >= 0 { tx } else { -tx };
    let qy = if ty >= 0 { ty } else { -ty };
    let qz = if tz >= 0 { tz } else { -tz };
    let aax = if ax >= 0 { ax } else { -ax };
    let aay = if ay >= 0 { ay } else { -ay };
    let aaz = if az >= 0 { az } else { -az };
    let u = qx * qx + qy * qy + qz * qz;
    // the squared length of the finer vector
    assert(aax * aax == ax * ax && aay * aay == ay * ay && aaz * aaz == az * az) by (nonlinear_arith)
        requires
            aax == ax || aax == -ax,
            aay == ay || aay == -ay,
            aaz == az || aaz == -az,
    ;
    assert(ax * ax + ay * ay + az * az == 4294967296 * m) by (nonlinear_arith)
        requires
            ax == x * 4294967296,
            ay == y * 4294967296,
            az == z * 4294967296,
            m == (x * x + y * y + z * z) * 4294967296,
    ;
    let ff = f * f;
    assert((qx * f) * (qx * f) == (qx * qx) * ff) by (nonlinear_arith) requires ff == f * f;
    assert((qy * f) * (qy * f) == (qy * qy) * ff) by (nonlinear_arith) requires ff == f * f;
    assert((qz * f) * (qz * f) == (qz * qz) * ff) by (nonlinear_arith) requires ff == f * f;
    lemma_mul_is_distributive_add_other_way(ff, qx * qx + qy * qy, qz * qz);
    lemma_mul_is_distributive_add_other_way(ff, qx * qx, qy * qy);
    // upper bound
    assert(u * ff <= 4294967296 * m);
    assert(u < 65537 * 65537) by (nonlinear_arith)
        requires
            u * (f * f) <= 4294967296 * m,
            m < (f + 1) * (f + 1),
            f >= 65536,
            u >= 0,
    {
        if u >= 65537 * 65537 {
            assert(u * (f * f) >= (65537 * 65537) * (f * f));
            assert(65537 * f >= 65536 * (f + 1));
            assert((65537 * f) * (65537 * f) >= (65536 * (f + 1)) * (65536 * (f + 1)));
            assert(4294967296 * m < 4294967296 * ((f + 1) * (f + 1)));
        }
    }
    assert(qx <= 65536 && qy <= 65536 && qz <= 65536) by (nonlinear_arith)
        requires
            u == qx * qx + qy * qy + qz * qz,
            u < 65537 * 65537,
            qx >= 0,
            qy >= 0,
            qz >= 0,
    {
        if qx > 65536 {
            assert(qx * qx >= 65537 * 65537);
        }
        if qy > 65536 {
            assert(qy * qy >= 65537 * 65537);
        }
        if qz > 65536 {
            assert(qz * qz >= 65537 * 65537);
        }
    }
    // lower bound
    assert((qx + 1) * f * ((qx + 1) * f) == (qx * qx + 2 * qx + 1) * ff) by (nonlinear_arith) requires ff == f * f;
    assert((qy + 1) * f * ((qy + 1) * f) == (qy * qy + 2 * qy + 1) * ff) by (nonlinear_arith) requires ff == f * f;
    assert((qz + 1) * f * ((qz + 1) * f) == (qz * qz + 2 * qz + 1) * ff) by (nonlinear_arith) requires ff == f * f;
    lemma_mul_is_distributive_add_other_way(ff, (qx * qx + 2 * qx + 1) + (qy * qy + 2 * qy + 1), qz * qz + 2 * qz + 1);
    lemma_mul_is_distributive_add_other_way(ff, qx * qx + 2 * qx + 1, qy * qy + 2 * qy + 1);
    assert(4294967296 * m < (u + 2 * (qx + qy + qz) + 3) * ff);
    assert(u > 4294967296 - 6 * 65536 - 3) by (nonlinear_arith)
        requires
            4294967296 * m < (u + 2 * (qx + qy + qz) + 3) * (f * f),
            f * f <= m,
            f >= 65536,
            0 <= qx <= 65536,
            0 <= qy <= 65536,
            0 <= qz <= 65536,
    {
        assert(4294967296 * (f * f) <= 4294967296 * m);
        if u + 2 * (qx + qy + qz) + 3 <= 4294967296 {
            assert((u + 2 * (qx + qy + qz) + 3) * (f * f) <= 4294967296 * (f * f));
        }
    }
    let r = p.unit_spec();
    assert(r.x == tx && r.y == ty && r.z == tz);
    assert(r.norm_sq() == u) by (nonlinear_arith)
        requires
            r.norm_sq() == tx * tx + ty * ty + tz * tz,
            qx == tx || qx == -tx,
            qy == ty || qy == -ty,
            qz == tz || qz == -tz,
            u == qx * qx + qy * qy + qz * qz,
    ;
    // the dot product with the point is positive
    assert(tx * ax == 4294967296 * (tx * x) && ty * ay == 4294967296 * (ty * y) && tz * az == 4294967296 * (tz * z))
        by (nonlinear_arith)
        requires
            ax == x * 4294967296,
            ay == y * 4294967296,
            az == z * 4294967296,
    ;
    assert(qx * f >= f || qx == 0) by (nonlinear_arith) requires qx >= 0, f > 0;
    assert(qy * f >= f || qy == 0) by (nonlinear_arith) requires qy >= 0, f > 0;
    assert(qz * f >= f || qz == 0) by (nonlinear_arith) requires qz >= 0, f > 0;
    assert(qx != 0 || qy != 0 || qz != 0) by (nonlinear_arith)
        requires
            u > 0,
            u == qx * qx + qy * qy + qz * qz,
    ;
    assert(tx * x >= 0 && ty * y >= 0 && tz * z >= 0);
    assert(tx * x > 0 || ty * y > 0 || tz * z > 0);
    assert(r.dot_raw(p) == tx * x + ty * y + tz * z);
}

/// A 4x4 homogeneous transform, row-major, entries raw fixed point.
///
/// Applied to a column vector: a product `a.mul(&b)` applies `b` first.
#[derive(Clone, Copy, Debug)]
pub struct Transform {
    data: [Coord; 16],
}

/// Every entry of a 16-entry matrix lies in the range of coordinates.
pub open spec fn wf_matrix(m: Seq<Coord>) -> bool {
    m.len() == 16 && forall|k: int| 0 <= k < 16 ==> in_range(#[trigger] m[k] as int)
}

/// Row `i` of `a` times column `j` of `b`, raw units squared.
pub open spec fn row_col(a: Seq<Coord>, b: Seq<Coord>, i: int, j: int) -> int {
    a[4 * i] * b[j] + a[4 * i + 1] * b[4 + j] + a[4 * i + 2] * b[8 + j] + a[4 * i + 3] * b[12 + j]
}

/// Entry `(i, j)` of the product of two matrices.
pub open spec fn mul_entry(a: Seq<Coord>, b: Seq<Coord>, i: int, j: int) -> int {
    sat(row_col(a, b, i, j) / (ONE as int))
}

/// The product of two matrices, each entry rounded down and saturated.
pub open spec fn mat_mul(a: Seq<Coord>, b: Seq<Coord>) -> Seq<Coord> {
    Seq::new(16, |n: int| mul_entry(a, b, n / 4, n % 4) as Coord)
}

/// The identity: `ONE` on the diagonal, zero elsewhere.
pub open spec fn identity_matrix() -> Seq<Coord> {
    Seq::new(16, |n: int| if n / 4 == n % 4 { ONE } else { 0 })
}

pub open spec fn translate_matrix(off: Point) -> Seq<Coord> {
    seq![ONE, 0, 0, off.x, 0, ONE, 0, off.y, 0, 0, ONE, off.z, 0, 0, 0, ONE]
}

pub open spec fn rotate_x_matrix(c: Coord, s: Coord) -> Seq<Coord> {
    seq![ONE, 0, 0, 0, 0, c, s, 0, 0, -s as Coord, c, 0, 0, 0, 0, ONE]
}

pub open spec fn rotate_y_matrix(c: Coord, s: Coord) -> Seq<Coord> {
    seq![c, 0, s, 0, 0, ONE, 0, 0, -s as Coord, 0, c, 0, 0, 0, 0, ONE]
}

pub open spec fn rotate_z_matrix(c: Coord, s: Coord) -> Seq<Coord> {
    seq![c, s, 0, 0, -s as Coord, c, 0, 0, 0, 0, ONE, 0, 0, 0, 0, ONE]
}

pub open spec fn scale_matrix(x: Coord, y: Coord, z: Coord) -> Seq<Coord> {
    seq![x, 0, 0, 0, 0, y, 0, 0, 0, 0, z, 0, 0, 0, 0, ONE]
}

pub open spec fn perspective_matrix() -> Seq<Coord> {
    seq![ONE, 0, 0, 0, 0, ONE, 0, 0, 0, 0, -ONE as Coord, 0, 0, 0, -ONE as Coord, 0]
}

impl View for Transform {
    type V = Seq<Coord>;

    closed spec fn view(&self) -> Seq<Coord> {
        self.data@
    }
}

impl Transform {
    pub open spec fn wf(self) -> bool {
        wf_matrix(self@)
    }

    /// The entries, row-major.
    pub fn entries(&self) -> (r: [Coord; 16])
        ensures
            r@ == self@,
    {
        self.data
    }

    fn data(&self) -> (r: &[Coord; 16])
        ensures
            r@ == self@,
    {
        &self.data
    }

    fn from_data(data: [Coord; 16]) -> (r: Transform)
        ensures
            r@ == data@,
    {
        Transform { data }
    }

    pub fn identity() -> (r: Transform)
        ensures
            r@ == identity_matrix(),
            r.wf(),
    {
        let r = Transform::from_data([ONE, 0, 0, 0, 0, ONE, 0, 0, 0, 0, ONE, 0, 0, 0, 0, ONE]);
        assert(r@ =~= identity_matrix());
        r
    }

    /// Translation by `off`.
    pub fn translate(off: Point) -> (r: Transform)
        requires
            off.wf(),
        ensures
            r@ == translate_matrix(off),
            r.wf(),
    {
        let r = Transform::from_data(
            [ONE, 0, 0, off.x, 0, ONE, 0, off.y, 0, 0, ONE, off.z, 0, 0, 0, ONE],
        );
        assert(r@ =~= translate_matrix(off));
        r
    }

    /// Rotation about the x axis by the angle whose cosine and sine are
    /// `cos` and `sin` (raw).
    pub fn rotate_x(cos: Coord, sin: Coord) -> (r: Transform)
        requires
            in_range(cos as int),
            in_range(sin as int),
        ensures
            r@ == rotate_x_matrix(cos, sin),
            r.wf(),
    {
        let r = Transform::from_data([ONE, 0, 0, 0, 0, cos, sin, 0, 0, -sin, cos, 0, 0, 0, 0, ONE]);
        assert(r@ =~= rotate_x_matrix(cos, sin));
        r
    }

    /// Rotation about the y axis by the angle whose cosine and sine are
    /// `cos` and `sin` (raw).
    pub fn rotate_y(cos: Coord, sin: Coord) -> (r: Transform)
        requires
            in_range(cos as int),
            in_range(sin as int),
        ensures
            r@ == rotate_y_matrix(cos, sin),
            r.wf(),
    {
        let r = Transform::from_data([cos, 0, sin, 0, 0, ONE, 0, 0, -sin, 0, cos, 0, 0, 0, 0, ONE]);
        assert(r@ =~= rotate_y_matrix(cos, sin));
        r
    }

    /// Rotation about the z axis by the angle whose cosine and sine are
    /// `cos` and `sin` (raw).
    pub fn rotate_z(cos: Coord, sin: Coord) -> (r: Transform)
        requires
            in_range(cos as int),
            in_range(sin as int),
        ensures
            r@ == rotate_z_matrix(cos, sin),
            r.wf(),
    {
        let r = Transform::from_data([cos, sin, 0, 0, -sin, cos, 0, 0, 0, 0, ONE, 0, 0, 0, 0, ONE]);
        assert(r@ =~= rotate_z_matrix(cos, sin));
        r
    }

    /// Scaling by `x`, `y` and `z` along the axes.
    pub fn scale(x: Coord, y: Coord, z: Coord) -> (r: Transform)
        requires
            in_range(x as int),
            in_range(y as int),
            in_range(z as int),
        ensures
            r@ == scale_matrix(x, y, z),
            r.wf(),
    {
        let r = Transform::from_data([x, 0, 0, 0, 0, y, 0, 0, 0, 0, z, 0, 0, 0, 0, ONE]);
        assert(r@ =~= scale_matrix(x, y, z));
        r
    }

    /// The projection that makes `w` equal to `-z`.
    pub fn perspective() -> (r: Transform)
        ensures
            r@ == perspective_matrix(),
            r.wf(),
    {
        let r = Transform::from_data([ONE, 0, 0, 0, 0, ONE, 0, 0, 0, 0, -ONE, 0, 0, 0, -ONE, 0]);
        assert(r@ =~= perspective_matrix());
        r
    }

    /// Entry `(i, j)` of `self * rhs`.
    fn mul_at(&self, rhs: &Transform, i: usize, j: usize) -> (r: Coord)
        requires
            self.wf(),
            rhs.wf(),
            i < 4,
            j < 4,
        ensures
            r == mul_entry(self@, rhs@, i as int, j as int),
            in_range(r as int),
    {
        let a = &self.data;
        let b = &rhs.data;
        proof {
            assert(in_range(self@[4 * i + 0] as int) && in_range(rhs@[j + 0] as int));
            assert(in_range(self@[4 * i + 1] as int) && in_range(rhs@[4 + j] as int));
            assert(in_range(self@[4 * i + 2] as int) && in_range(rhs@[8 + j] as int));
            assert(in_range(self@[4 * i + 3] as int) && in_range(rhs@[12 + j] as int));
            lemma_mul_in_range(self@[4 * i + 0] as int, rhs@[j + 0] as int);
            lemma_mul_in_range(self@[4 * i + 1] as int, rhs@[4 + j] as int);
            lemma_mul_in_range(self@[4 * i + 2] as int, rhs@[8 + j] as int);
            lemma_mul_in_range(self@[4 * i + 3] as int, rhs@[12 + j] as int);
        }
        let sum = mul_wide(a[4 * i], b[j]) + mul_wide(a[4 * i + 1], b[4 + j]) + mul_wide(
            a[4 * i + 2],
            b[8 + j],
        ) + mul_wide(a[4 * i + 3], b[12 + j]);
        saturate(floor_div(sum, ONE as i128))
    }

    /// The product `self * rhs`: applying it applies `rhs`, then `self`.
    pub fn mul(&self, rhs: &Transform) -> (r: Transform)
        requires
            self.wf(),
            rhs.wf(),
        ensures
            r@ == mat_mul(self@, rhs@),
            r.wf(),
    {
        let r = Transform::from_data(
            [
                self.mul_at(rhs, 0, 0),
                self.mul_at(rhs, 0, 1),
                self.mul_at(rhs, 0, 2),
                self.mul_at(rhs, 0, 3),
                self.mul_at(rhs, 1, 0),
                self.mul_at(rhs, 1, 1),
                self.mul_at(rhs, 1, 2),
                self.mul_at(rhs, 1, 3),
                self.mul_at(rhs, 2, 0),
                self.mul_at(rhs, 2, 1),
                self.mul_at(rhs, 2, 2),
                self.mul_at(rhs, 2, 3),
                self.mul_at(rhs, 3, 0),
                self.mul_at(rhs, 3, 1),
                self.mul_at(rhs, 3, 2),
                self.mul_at(rhs, 3, 3),
            ],
        );
        assert(r@ =~= mat_mul(self@, rhs@));
        r
    }
}

/// Row `i` of `m` times the homogeneous coordinates of `p`, raw units squared.
pub open spec fn row_point(m: Seq<Coord>, i: int, p: Point) -> int {
    m[4 * i] * p.x + m[4 * i + 1] * p.y + m[4 * i + 2] * p.z + m[4 * i + 3] * ONE
}

/// `p` mapped through `m`, then divided by the resulting `w`; `None` where
/// that `w` is zero.
pub open spec fn apply_matrix(p: Point, m: Seq<Coord>) -> Option<Point> {
    if row_point(m, 3, p) == 0 {
        None
    } else {
        Some(
            Point::from_homogeneous(
                row_point(m, 0, p),
                row_point(m, 1, p),
                row_point(m, 2, p),
                row_point(m, 3, p),
            ),
        )
    }
}

impl Point {
    /// Row `i` of `t` times the homogeneous coordinates of `self`.
    fn row_times(self, t: &Transform, i: usize) -> (r: i128)
        requires
            self.wf(),
            t.wf(),
            i < 4,
        ensures
            r == row_point(t@, i as int, self),
            -0x1_0000_0000_0000_0000_0000_0000 <= r <= 0x1_0000_0000_0000_0000_0000_0000,
    {
        let m = t.data();
        proof {
            assert(in_range(t@[4 * i + 0] as int));
            assert(in_range(t@[4 * i + 1] as int));
            assert(in_range(t@[4 * i + 2] as int));
            assert(in_range(t@[4 * i + 3] as int));
            lemma_mul_in_range(t@[4 * i + 0] as int, self.x as int);
            lemma_mul_in_range(t@[4 * i + 1] as int, self.y as int);
            lemma_mul_in_range(t@[4 * i + 2] as int, self.z as int);
            lemma_mul_in_range(t@[4 * i + 3] as int, ONE as int);
        }
        mul_wide(m[4 * i], self.x) + mul_wide(m[4 * i + 1], self.y) + mul_wide(m[4 * i + 2], self.z)
            + mul_wide(m[4 * i + 3], ONE)
    }

    /// The point mapped through `t` and divided by its `w`; `None` where that
    /// `w` is zero (a point on the plane that a projection sends to infinity).
    pub fn mul_transform(self, t: &Transform) -> (r: Option<Point>)
        requires
            self.wf(),
            t.wf(),
        ensures
            r == apply_matrix(self, t@),
            r matches Some(q) ==> q.wf(),
    {
        let w = self.row_times(t, 3);
        if w == 0 {
            None
        } else {
            Some(
                Point {
                    x: hdiv_wide(self.row_times(t, 0), w),
                    y: hdiv_wide(self.row_times(t, 1), w),
                    z: hdiv_wide(self.row_times(t, 2), w),
                },
            )
        }
    }
}

/// The exact cross product of `a` and `b`, raw units squared.
pub open spec fn cross_raw(a: Point, b: Point) -> (int, int, int) {
    (a.y * b.z - a.z * b.y, a.z * b.x - a.x * b.z, a.x * b.y - a.y * b.x)
}

pub open spec fn abs_sum(v: (int, int, int)) -> int {
    (if v.0 >= 0 { v.0 } else { -v.0 }) + (if v.1 >= 0 { v.1 } else { -v.1 }) + (if v.2 >= 0 { v.2 } else { -v.2 })
}

/// The vector `v` halved, rounding toward zero, until each coordinate lies
/// in the range of coordinates: a point with the direction of `v`.
pub open spec fn shrink(v: (int, int, int)) -> Point
    decreases abs_sum(v),
{
    if in_range(v.0) && in_range(v.1) && in_range(v.2) {
        Point { x: v.0 as i64, y: v.1 as i64, z: v.2 as i64 }
    } else {
        shrink((trunc_div(v.0, 2), trunc_div(v.1, 2), trunc_div(v.2, 2)))
    }
}

/// A nonzero vector shrinks to a nonzero point in range.
pub proof fn lemma_shrink(v: (int, int, int))
    ensures
        shrink(v).wf(),
        v != (0int, 0int, 0int) ==> shrink(v) != (Point { x: 0, y: 0, z: 0 }),
    decreases abs_sum(v),
{
    if !(in_range(v.0) && in_range(v.1) && in_range(v.2)) {
        lemma_shrink((trunc_div(v.0, 2), trunc_div(v.1, 2), trunc_div(v.2, 2)));
    }
}

/// Three points; their order gives the winding, and with it the normal.
#[derive(Clone, Copy, Debug, PartialEq, Eq, Structural)]
pub struct Triangle {
    pub p1: Point,
    pub p2: Point,
    pub p3: Point,
}

/// The triangle with each vertex mapped through `m`; `None` where a vertex has
/// no image.
pub open spec fn apply_matrix_tri(t: Triangle, m: Seq<Coord>) -> Option<Triangle> {
    match (apply_matrix(t.p1, m), apply_matrix(t.p2, m), apply_matrix(t.p3, m)) {
        (Some(p1), Some(p2), Some(p3)) => Some(Triangle { p1, p2, p3 }),
        _ => None,
    }
}

impl Triangle {
    pub open spec fn wf(self) -> bool {
        self.p1.wf() && self.p2.wf() && self.p3.wf()
    }

    /// The unit normal: the exact cross product of the edges from `p1`,
    /// brought into range, normalized.
    pub open spec fn normal_spec(self) -> Point {
        shrink(cross_raw(self.p2.sub_spec(self.p1), self.p3.sub_spec(self.p1))).unit_spec()
    }

    /// The mean of the vertices, the sum weighted by `THIRD`.
    pub open spec fn centroid_spec(self) -> Point {
        self.p1.add_spec(self.p2).add_spec(self.p3).mul_scalar_spec(THIRD as int)
    }

    pub fn new(p1: Point, p2: Point, p3: Point) -> (r: Triangle)
        ensures
            r == (Triangle { p1, p2, p3 }),
    {
        Triangle { p1, p2, p3 }
    }

    pub fn to_tuple(self) -> (r: (Point, Point, Point))
        ensures
            r == (self.p1, self.p2, self.p3),
    {
        (self.p1, self.p2, self.p3)
    }

    pub fn to_arr(self) -> (r: [Point; 3])
        ensures
            r@ == seq![self.p1, self.p2, self.p3],
    {
        let r = [self.p1, self.p2, self.p3];
        assert(r@ =~= seq![self.p1, self.p2, self.p3]);
        r
    }

    pub fn from_arr(arr: [Point; 3]) -> (r: Triangle)
        ensures
            r == (Triangle { p1: arr[0], p2: arr[1], p3: arr[2] }),
    {
        Triangle { p1: arr[0], p2: arr[1], p3: arr[2] }
    }

    pub fn normal(self) -> (r: Point)
        requires
            self.wf(),
        ensures
            r == self.normal_spec(),
            r.wf(),
    {
        let d1 = self.p2.sub(self.p1);
        let d2 = self.p3.sub(self.p1);
        proof {
            lemma_mul_in_range(d1.y as int, d2.z as int);
            lemma_mul_in_range(d1.z as int, d2.y as int);
            lemma_mul_in_range(d1.z as int, d2.x as int);
            lemma_mul_in_range(d1.x as int, d2.z as int);
            lemma_mul_in_range(d1.x as int, d2.y as int);
            lemma_mul_in_range(d1.y as int, d2.x as int);
        }
        let mut cx = mul_wide(d1.y, d2.z) - mul_wide(d1.z, d2.y);
        let mut cy = mul_wide(d1.z, d2.x) - mul_wide(d1.x, d2.z);
        let mut cz = mul_wide(d1.x, d2.y) - mul_wide(d1.y, d2.x);
        let ghost target = shrink(cross_raw(d1, d2));
        while !(-COORD_MAX as i128 <= cx && cx <= COORD_MAX as i128 && -COORD_MAX as i128 <= cy && cy
            <= COORD_MAX as i128 && -COORD_MAX as i128 <= cz && cz <= COORD_MAX as i128)
            invariant
                shrink((cx as int, cy as int, cz as int)) == target,
                -0x1_0000_0000_0000_0000_0000_0000 <= cx <= 0x1_0000_0000_0000_0000_0000_0000,
                -0x1_0000_0000_0000_0000_0000_0000 <= cy <= 0x1_0000_0000_0000_0000_0000_0000,
                -0x1_0000_0000_0000_0000_0000_0000 <= cz <= 0x1_0000_0000_0000_0000_0000_0000,
            decreases abs_sum((cx as int, cy as int, cz as int)),
        {
            cx = trunc_div_wide(cx, 2);
            cy = trunc_div_wide(cy, 2);
            cz = trunc_div_wide(cz, 2);
        }
        let c = Point { x: cx as i64, y: cy as i64, z: cz as i64 };
        c.normalized()
    }

    pub fn centroid(self) -> (r: Point)
        requires
            self.wf(),
        ensures
            r == self.centroid_spec(),
            r.wf(),
    {
        self.p1.add(self.p2).add(self.p3).mul_scalar(THIRD)
    }

    /// Each vertex mapped through `t`; `None` where a vertex has no image.
    pub fn mul_transform(self, t: &Transform) -> (r: Option<Triangle>)
        requires
            self.wf(),
            t.wf(),
        ensures
            r == apply_matrix_tri(self, t@),
            r matches Some(u) ==> u.wf(),
    {
        match (self.p1.mul_transform(t), self.p2.mul_transform(t), self.p3.mul_transform(t)) {
            (Some(p1), Some(p2), Some(p3)) => Some(Triangle { p1, p2, p3 }),
            _ => None,
        }
    }
}

} // verus!
