//! Frustum planes: extraction from a view-projection transform and the
//! point-containment convention.

use vstd::prelude::*;

verus! {

/// Bound on the absolute value of every plane coefficient and every world
/// coordinate accepted by the containment and visibility tests, so that the
/// 128-bit arithmetic evaluating a plane equation cannot overflow.
pub const PLANE_COEFF_BOUND: i64 = 0x4000_0000_0000_0000;

/// Bound on the absolute value of every matrix entry accepted by plane
/// extraction, so that the entry sums stay within `PLANE_COEFF_BOUND`.
pub const MATRIX_ENTRY_BOUND: i64 = 0x2000_0000_0000_0000;

/// One half-space boundary of the camera's visible volume.
///
/// The point `(x, y, z)` is on the inner side exactly when
/// `a*x + b*y + c*z + d >= 0`. The visibility test only reads the sign of
/// that expression, so planes may be scaled by any positive factor without
/// changing any result; a host working in fractional coordinates picks a
/// fixed-point scale for the coefficients.
#[derive(Clone, Copy, Debug, PartialEq, Eq, Structural)]
pub struct Plane {
    pub a: i64,
    pub b: i64,
    pub c: i64,
    pub d: i64,
}

impl Plane {
    /// Value of the plane equation at a point; the point is inside the
    /// half-space when this is nonnegative.
    pub open spec fn dist(self, x: int, y: int, z: int) -> int {
        self.a * x + self.b * y + self.c * z + self.d
    }

    pub open spec fn in_bounds(self) -> bool {
        &&& -PLANE_COEFF_BOUND <= self.a <= PLANE_COEFF_BOUND
        &&& -PLANE_COEFF_BOUND <= self.b <= PLANE_COEFF_BOUND
        &&& -PLANE_COEFF_BOUND <= self.c <= PLANE_COEFF_BOUND
        &&& -PLANE_COEFF_BOUND <= self.d <= PLANE_COEFF_BOUND
    }

    /// Whether the point is on the inner side of this plane.
    pub fn contains_point(&self, x: i64, y: i64, z: i64) -> (r: bool)
        requires
            self.in_bounds(),
            -PLANE_COEFF_BOUND <= x <= PLANE_COEFF_BOUND,
            -PLANE_COEFF_BOUND <= y <= PLANE_COEFF_BOUND,
            -PLANE_COEFF_BOUND <= z <= PLANE_COEFF_BOUND,
        ensures
            r == (self.dist(x as int, y as int, z as int) >= 0),
    {
        proof {
            lemma_mul_bound(self.a as int, x as int, PLANE_COEFF_BOUND as int);
            lemma_mul_bound(self.b as int, y as int, PLANE_COEFF_BOUND as int);
            lemma_mul_bound(self.c as int, z as int, PLANE_COEFF_BOUND as int);
        }
        let s: i128 = self.a as i128 * x as i128 + self.b as i128 * y as i128
            + self.c as i128 * z as i128 + self.d as i128;
        s >= 0
    }
}

/// Product of two values bounded by `m` is bounded by `m * m`.
pub proof fn lemma_mul_bound(a: int, b: int, m: int)
    by (nonlinear_arith)
    requires
        0 <= m,
        -m <= a <= m,
        -m <= b <= m,
    ensures
        -(m * m) <= a * b <= m * m,
{
}

/// One row of a 4x4 view-projection matrix, in the convention where the
/// clip-space position of a point is the matrix applied to it from the left.
#[derive(Clone, Copy, Debug, PartialEq, Eq, Structural)]
pub struct Mat4Row {
    pub x: i64,
    pub y: i64,
    pub z: i64,
    pub w: i64,
}

impl Mat4Row {
    pub open spec fn in_bounds(self) -> bool {
        &&& -MATRIX_ENTRY_BOUND <= self.x <= MATRIX_ENTRY_BOUND
        &&& -MATRIX_ENTRY_BOUND <= self.y <= MATRIX_ENTRY_BOUND
        &&& -MATRIX_ENTRY_BOUND <= self.z <= MATRIX_ENTRY_BOUND
        &&& -MATRIX_ENTRY_BOUND <= self.w <= MATRIX_ENTRY_BOUND
    }
}

/// A 4x4 view-projection matrix given by rows.
#[derive(Clone, Copy, Debug, PartialEq, Eq, Structural)]
pub struct ViewProjMatrix {
    pub row0: Mat4Row,
    pub row1: Mat4Row,
    pub row2: Mat4Row,
    pub row3: Mat4Row,
}

impl ViewProjMatrix {
    pub open spec fn in_bounds(self) -> bool {
        self.row0.in_bounds() && self.row1.in_bounds() && self.row2.in_bounds()
            && self.row3.in_bounds()
    }
}

/// `p` is the componentwise sum of rows `u` and `v`.
pub open spec fn is_sum_plane(p: Plane, u: Mat4Row, v: Mat4Row) -> bool {
    &&& p.a == u.x + v.x
    &&& p.b == u.y + v.y
    &&& p.c == u.z + v.z
    &&& p.d == u.w + v.w
}

/// `p` is the componentwise difference of rows `u` and `v`.
pub open spec fn is_diff_plane(p: Plane, u: Mat4Row, v: Mat4Row) -> bool {
    &&& p.a == u.x - v.x
    &&& p.b == u.y - v.y
    &&& p.c == u.z - v.z
    &&& p.d == u.w - v.w
}

/// A point is inside the frustum when it is on the inner side of all six
/// planes.
pub open spec fn point_inside_frustum(planes: Seq<Plane>, x: int, y: int, z: int) -> bool {
    forall|i: int| 0 <= i < planes.len() ==> #[trigger] planes[i].dist(x, y, z) >= 0
}

pub open spec fn planes_in_bounds(planes: Seq<Plane>) -> bool {
    forall|i: int| 0 <= i < planes.len() ==> (#[trigger] planes[i]).in_bounds()
}

/// The six culling planes of the view-projection transform, in the order
/// left, right, bottom, top, near, far.
///
/// Each plane is a sum or difference of the fourth matrix row with another
/// row. The planes are not rescaled: the visibility and containment tests
/// read only the sign of the plane equation, which rescaling by a positive
/// factor preserves, so the normalization that a distance-based consumer
/// would need is left to the host.
pub fn extract_frustum_planes(m: &ViewProjMatrix) -> (r: [Plane; 6])
    requires
        m.in_bounds(),
    ensures
        r@.len() == 6,
        is_sum_plane(r@[0], m.row3, m.row0),
        is_diff_plane(r@[1], m.row3, m.row0),
        is_sum_plane(r@[2], m.row3, m.row1),
        is_diff_plane(r@[3], m.row3, m.row1),
        is_sum_plane(r@[4], m.row3, m.row2),
        is_diff_plane(r@[5], m.row3, m.row2),
        planes_in_bounds(r@),
{
    [
        plane_sum(&m.row3, &m.row0),
        plane_diff(&m.row3, &m.row0),
        plane_sum(&m.row3, &m.row1),
        plane_diff(&m.row3, &m.row1),
        plane_sum(&m.row3, &m.row2),
        plane_diff(&m.row3, &m.row2),
    ]
}

fn plane_sum(u: &Mat4Row, v: &Mat4Row) -> (r: Plane)
    requires
        u.in_bounds(),
        v.in_bounds(),
    ensures
        is_sum_plane(r, *u, *v),
        r.in_bounds(),
{
    Plane { a: u.x + v.x, b: u.y + v.y, c: u.z + v.z, d: u.w + v.w }
}

fn plane_diff(u: &Mat4Row, v: &Mat4Row) -> (r: Plane)
    requires
        u.in_bounds(),
        v.in_bounds(),
    ensures
        is_diff_plane(r, *u, *v),
        r.in_bounds(),
{
    Plane { a: u.x - v.x, b: u.y - v.y, c: u.z - v.z, d: u.w - v.w }
}

/// Whether the point is inside all six frustum planes.
pub fn point_in_frustum(planes: &[Plane; 6], x: i64, y: i64, z: i64) -> (r: bool)
    requires
        planes_in_bounds(planes@),
        -PLANE_COEFF_BOUND <= x <= PLANE_COEFF_BOUND,
        -PLANE_COEFF_BOUND <= y <= PLANE_COEFF_BOUND,
        -PLANE_COEFF_BOUND <= z <= PLANE_COEFF_BOUND,
    ensures
        r == point_inside_frustum(planes@, x as int, y as int, z as int),
{
    let r = planes[0].contains_point(x, y, z) && planes[1].contains_point(x, y, z)
        && planes[2].contains_point(x, y, z) && planes[3].contains_point(x, y, z)
        && planes[4].contains_point(x, y, z) && planes[5].contains_point(x, y, z);
    proof {
        if r {
            assert forall|i: int| 0 <= i < 6 implies #[trigger] planes@[i].dist(
                x as int,
                y as int,
                z as int,
            ) >= 0 by {
                assert(planes@[0] == planes[0 as int]);
            }
        }
    }
    r
}

} // verus!
