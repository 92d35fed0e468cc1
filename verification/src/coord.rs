//! Chunk coordinates: integer grid cells of fixed world size.

use vstd::prelude::*;
use vstd::arithmetic::div_mod::lemma_fundamental_div_mod_converse;
use crate::frustum::{Plane, planes_in_bounds, PLANE_COEFF_BOUND};

verus! {

/// World-space edge length of one square chunk, in whole world units.
pub const CHUNK_WORLD_SIZE: i64 = 256;

/// Identifies one grid cell of the chunk grid.
#[derive(Clone, Copy, Debug, Hash, PartialEq, Eq, Structural)]
pub struct ChunkCoord {
    pub x: i32,
    pub z: i32,
}

/// The grid cell that contains world coordinate `w` on one axis:
/// floor division by the chunk size.
pub open spec fn world_to_chunk(w: int) -> int {
    w / (CHUNK_WORLD_SIZE as int)
}

impl ChunkCoord {
    pub fn new(x: i32, z: i32) -> (r: Self)
        ensures
            r.x == x,
            r.z == z,
    {
        Self { x, z }
    }

    /// The grid cell containing the world position whose horizontal
    /// coordinates, rounded down to whole units, are `(wx, wz)`.
    pub fn from_world_pos(wx: i64, wz: i64) -> (r: Self)
        requires
            -0x80_0000_0000 <= wx < 0x80_0000_0000,
            -0x80_0000_0000 <= wz < 0x80_0000_0000,
        ensures
            r.x as int == world_to_chunk(wx as int),
            r.z as int == world_to_chunk(wz as int),
    {
        Self { x: floor_div_chunk(wx), z: floor_div_chunk(wz) }
    }

    /// World coordinates of this cell's corner nearest to negative infinity
    /// on both axes.
    pub fn world_offset(&self) -> (r: (i64, i64))
        ensures
            r.0 as int == self.x as int * CHUNK_WORLD_SIZE as int,
            r.1 as int == self.z as int * CHUNK_WORLD_SIZE as int,
    {
        (self.x as i64 * CHUNK_WORLD_SIZE, self.z as i64 * CHUNK_WORLD_SIZE)
    }

    /// The conservative world-space box of this cell: the chunk's footprint on
    /// the ground plane, and a vertical extent derived from the height-scale
    /// parameter. Real terrain heights are unknown without generation, so the
    /// box over-approximates.
    pub open spec fn spec_world_bounds(self, height_scale: int) -> ChunkWorldBounds {
        let ox = self.x as int * CHUNK_WORLD_SIZE as int;
        let oz = self.z as int * CHUNK_WORLD_SIZE as int;
        ChunkWorldBounds {
            min_x: ox as i64,
            max_x: (ox + CHUNK_WORLD_SIZE as int) as i64,
            min_y: ((-height_scale) / 2) as i64,
            max_y: height_scale as i64,
            min_z: oz as i64,
            max_z: (oz + CHUNK_WORLD_SIZE as int) as i64,
        }
    }

    /// Computes the conservative world-space box of this cell.
    pub fn world_bounds(&self, height_scale: i64) -> (b: ChunkWorldBounds)
        requires
            0 <= height_scale <= PLANE_COEFF_BOUND,
        ensures
            b == self.spec_world_bounds(height_scale as int),
            b.wf(),
            b.in_bounds(),
    {
        let (ox, oz) = self.world_offset();
        let half_up: u64 = (height_scale as u64 + 1) / 2;
        proof {
            let h = height_scale as int;
            lemma_fundamental_div_mod_converse(-h, 2, -((h + 1) / 2), h % 2);
        }
        ChunkWorldBounds {
            min_x: ox,
            max_x: ox + CHUNK_WORLD_SIZE,
            min_y: -(half_up as i64),
            max_y: height_scale,
            min_z: oz,
            max_z: oz + CHUNK_WORLD_SIZE,
        }
    }

    /// Conservative test of this chunk's box against the six frustum planes:
    /// false only when the box lies entirely outside some plane, so a visible
    /// chunk is never excluded.
    pub fn is_visible_in_frustum(&self, planes: &[Plane; 6], height_scale: i64) -> (r: bool)
        requires
            planes_in_bounds(planes@),
            0 <= height_scale <= PLANE_COEFF_BOUND,
        ensures
            r == chunk_bounds_visible(self.spec_world_bounds(height_scale as int), planes@),
    {
        let b = self.world_bounds(height_scale);
        let r = bounds_pass_plane(&b, &planes[0]) && bounds_pass_plane(&b, &planes[1])
            && bounds_pass_plane(&b, &planes[2]) && bounds_pass_plane(&b, &planes[3])
            && bounds_pass_plane(&b, &planes[4]) && bounds_pass_plane(&b, &planes[5]);
        proof {
            if r {
                assert forall|i: int| 0 <= i < 6 implies b.support_dist(#[trigger] planes@[i])
                    >= 0 by {
                    assert(planes@[0] == planes[0 as int]);
                }
            }
        }
        r
    }
}

/// The conservative axis-aligned world-space box of one chunk. Corners are
/// included on every side, which keeps the visibility test over-inclusive.
#[derive(Clone, Copy, Debug, PartialEq, Eq, Structural)]
pub struct ChunkWorldBounds {
    pub min_x: i64,
    pub max_x: i64,
    pub min_y: i64,
    pub max_y: i64,
    pub min_z: i64,
    pub max_z: i64,
}

impl ChunkWorldBounds {
    pub open spec fn wf(self) -> bool {
        self.min_x <= self.max_x && self.min_y <= self.max_y && self.min_z <= self.max_z
    }

    pub open spec fn in_bounds(self) -> bool {
        &&& -PLANE_COEFF_BOUND <= self.min_x <= PLANE_COEFF_BOUND
        &&& -PLANE_COEFF_BOUND <= self.max_x <= PLANE_COEFF_BOUND
        &&& -PLANE_COEFF_BOUND <= self.min_y <= PLANE_COEFF_BOUND
        &&& -PLANE_COEFF_BOUND <= self.max_y <= PLANE_COEFF_BOUND
        &&& -PLANE_COEFF_BOUND <= self.min_z <= PLANE_COEFF_BOUND
        &&& -PLANE_COEFF_BOUND <= self.max_z <= PLANE_COEFF_BOUND
    }

    pub open spec fn contains(self, x: int, y: int, z: int) -> bool {
        &&& self.min_x <= x <= self.max_x
        &&& self.min_y <= y <= self.max_y
        &&& self.min_z <= z <= self.max_z
    }

    /// Corner of the box farthest along the plane's normal: the box's maximum
    /// on an axis where the normal's component is nonnegative, else its
    /// minimum.
    pub open spec fn support_x(self, p: Plane) -> int {
        if p.a >= 0 {
            self.max_x as int
        } else {
            self.min_x as int
        }
    }

    pub open spec fn support_y(self, p: Plane) -> int {
        if p.b >= 0 {
            self.max_y as int
        } else {
            self.min_y as int
        }
    }

    pub open spec fn support_z(self, p: Plane) -> int {
        if p.c >= 0 {
            self.max_z as int
        } else {
            self.min_z as int
        }
    }

    /// The largest value of the plane equation over the box: the plane
    /// equation at the support corner.
    pub open spec fn support_dist(self, p: Plane) -> int {
        p.dist(self.support_x(p), self.support_y(p), self.support_z(p))
    }
}

/// The conservative box-versus-frustum test: the box passes unless it lies
/// entirely outside one of the planes.
pub open spec fn chunk_bounds_visible(b: ChunkWorldBounds, planes: Seq<Plane>) -> bool {
    forall|i: int| 0 <= i < planes.len() ==> b.support_dist(#[trigger] planes[i]) >= 0
}

/// Whether the box's support corner for this plane is on the inner side.
fn bounds_pass_plane(b: &ChunkWorldBounds, p: &Plane) -> (r: bool)
    requires
        b.in_bounds(),
        p.in_bounds(),
    ensures
        r == (b.support_dist(*p) >= 0),
{
    let px: i64 = if p.a >= 0 {
        b.max_x
    } else {
        b.min_x
    };
    let py: i64 = if p.b >= 0 {
        b.max_y
    } else {
        b.min_y
    };
    let pz: i64 = if p.c >= 0 {
        b.max_z
    } else {
        b.min_z
    };
    p.contains_point(px, py, pz)
}

/// On each axis, the plane equation is maximized over the box at the support
/// corner.
proof fn lemma_support_axis(coef: int, v: int, lo: int, hi: int)
    by (nonlinear_arith)
    requires
        lo <= v <= hi,
    ensures
        coef * v <= coef * (if coef >= 0 {
            hi
        } else {
            lo
        }),
{
}

/// The support corner maximizes the plane equation over the whole box: no
/// point of the box is farther along the plane's normal.
pub proof fn lemma_support_maximal(b: ChunkWorldBounds, p: Plane, x: int, y: int, z: int)
    requires
        b.contains(x, y, z),
    ensures
        p.dist(x, y, z) <= b.support_dist(p),
{
    lemma_support_axis(p.a as int, x, b.min_x as int, b.max_x as int);
    lemma_support_axis(p.b as int, y, b.min_y as int, b.max_y as int);
    lemma_support_axis(p.c as int, z, b.min_z as int, b.max_z as int);
}

/// A box that lies entirely outside one of the planes is excluded by the
/// visibility test.
pub proof fn lemma_excluded_when_fully_outside(b: ChunkWorldBounds, planes: Seq<Plane>, i: int)
    requires
        b.wf(),
        0 <= i < planes.len(),
        forall|x: int, y: int, z: int| #[trigger]
            b.contains(x, y, z) ==> planes[i].dist(x, y, z) < 0,
    ensures
        !chunk_bounds_visible(b, planes),
{
    let p = planes[i];
    assert(b.contains(b.support_x(p), b.support_y(p), b.support_z(p)));
}

/// The visibility test has no false negatives: a box containing a point that
/// is inside all the planes always passes.
pub proof fn lemma_no_false_negative(
    b: ChunkWorldBounds,
    planes: Seq<Plane>,
    x: int,
    y: int,
    z: int,
)
    requires
        b.contains(x, y, z),
        crate::frustum::point_inside_frustum(planes, x, y, z),
    ensures
        chunk_bounds_visible(b, planes),
{
    assert forall|i: int| 0 <= i < planes.len() implies b.support_dist(#[trigger] planes[i])
        >= 0 by {
        lemma_support_maximal(b, planes[i], x, y, z);
    }
}

/// Floor division of a world coordinate by the chunk size. Rust's `/`
/// truncates toward zero, so the value is shifted into nonnegative range,
/// divided there, and shifted back.
fn floor_div_chunk(w: i64) -> (r: i32)
    requires
        -0x80_0000_0000 <= w < 0x80_0000_0000,
    ensures
        r as int == world_to_chunk(w as int),
{
    let shifted: u64 = (w + 0x80_0000_0000) as u64;
    let q: u64 = shifted / 256;
    proof {
        let wi = w as int;
        lemma_fundamental_div_mod_converse(
            wi + 0x80_0000_0000,
            256,
            wi / 256 + 0x8000_0000,
            wi % 256,
        );
    }
    (q as i64 - 0x8000_0000) as i32
}

} // verus!
