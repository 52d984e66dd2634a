//! Axis-aligned integer boxes that bound the world volume and flatten cube
//! coordinates to dense array indices.

use vstd::prelude::*;

use crate::math::{GridCoordinate, GridPoint, GridVector};

verus! {

/// Specifies the coordinate extent of the world: an axis-aligned box with a
/// lower corner and strictly positive sizes.
///
/// The size invariants (positive sizes, no coordinate overflow, volume
/// representable) are established by [`Grid::new`] and assumed by every
/// operation; the type is immutable once constructed.
#[derive(Clone, Copy, Debug, PartialEq, Eq, Structural)]
pub struct Grid {
    /// Inclusive lower corner; use [`Grid::new`] so that the invariant holds.
    pub lower_bounds: GridPoint,
    /// Strictly positive extent on each axis.
    pub sizes: GridVector,
}

impl Grid {
    /// The well-formedness invariant: all sizes positive, the upper corner
    /// representable, and the volume representable in the indexing type.
    pub open spec fn wf(self) -> bool {
        &&& 0 < self.sizes.x
        &&& 0 < self.sizes.y
        &&& 0 < self.sizes.z
        &&& self.lower_bounds.x + self.sizes.x <= i32::MAX
        &&& self.lower_bounds.y + self.sizes.y <= i32::MAX
        &&& self.lower_bounds.z + self.sizes.z <= i32::MAX
        &&& self.sizes.x * self.sizes.y * self.sizes.z <= usize::MAX
    }

    /// The number of cells in the box.
    pub open spec fn spec_volume(self) -> int {
        self.sizes.x * self.sizes.y * self.sizes.z
    }

    /// Whether the cube at `point` lies within the box.
    pub open spec fn spec_contains(self, point: GridPoint) -> bool {
        &&& self.lower_bounds.x <= point.x < self.lower_bounds.x + self.sizes.x
        &&& self.lower_bounds.y <= point.y < self.lower_bounds.y + self.sizes.y
        &&& self.lower_bounds.z <= point.z < self.lower_bounds.z + self.sizes.z
    }

    /// The flattened array index of an in-bounds cube: row-major order with x
    /// varying slowest and z fastest.
    pub open spec fn spec_index_of(self, point: GridPoint) -> int {
        ((point.x - self.lower_bounds.x) * self.sizes.y + (point.y - self.lower_bounds.y))
            * self.sizes.z + (point.z - self.lower_bounds.z)
    }

    /// Construct a `Grid` from coordinate lower bounds and sizes.
    ///
    /// For example, if on one axis the lower bound is 5 and the size is 10,
    /// then the positions where cubes can exist are numbered 5 through 14
    /// (inclusive) and the occupied volume spans 5 to 15.
    ///
    /// Zero or negative sizes, coordinate overflow, and unrepresentable
    /// volumes are excluded: no valid box exists for them.
    pub fn new(lower_bounds: GridPoint, sizes: GridVector) -> (r: Grid)
        requires
            (Grid { lower_bounds, sizes }).wf(),
        ensures
            r == (Grid { lower_bounds, sizes }),
            r.wf(),
    {
        Grid { lower_bounds, sizes }
    }

    /// The box spanning exactly one cube.
    pub fn single_cube(point: GridPoint) -> (r: Grid)
        requires
            point.x < i32::MAX,
            point.y < i32::MAX,
            point.z < i32::MAX,
        ensures
            r.wf(),
            r.lower() == point,
            r.size() == (GridVector { x: 1, y: 1, z: 1 }),
            forall|p: GridPoint| r.spec_contains(p) <==> p == point,
    {
        Grid { lower_bounds: point, sizes: GridVector { x: 1, y: 1, z: 1 } }
    }

    /// The lower corner, as a spec-level function.
    pub open spec fn lower(self) -> GridPoint {
        self.lower_bounds
    }

    /// The sizes, as a spec-level function.
    pub open spec fn size(self) -> GridVector {
        self.sizes
    }

    /// Inclusive lower bound.
    pub fn lower_bounds(&self) -> (r: GridPoint)
        ensures
            r == self.lower(),
    {
        self.lower_bounds
    }

    /// Exclusive upper bound.
    pub fn upper_bounds(&self) -> (r: GridPoint)
        requires
            self.wf(),
        ensures
            r.x == self.lower().x + self.size().x,
            r.y == self.lower().y + self.size().y,
            r.z == self.lower().z + self.size().z,
    {
        GridPoint {
            x: self.lower_bounds.x + self.sizes.x,
            y: self.lower_bounds.y + self.sizes.y,
            z: self.lower_bounds.z + self.sizes.z,
        }
    }

    /// The extent of the box on each axis.
    pub fn sizes(&self) -> (r: GridVector)
        ensures
            r == self.size(),
    {
        self.sizes
    }

    /// Computes the volume of the box in cubes.
    pub fn volume(&self) -> (r: usize)
        requires
            self.wf(),
        ensures
            r == self.spec_volume(),
    {
        proof {
            lemma_volume_bounds(*self);
        }
        (self.sizes.x as usize) * (self.sizes.y as usize) * (self.sizes.z as usize)
    }

    /// Whether the cube at `point` lies within the box.
    pub fn contains_cube(&self, point: GridPoint) -> (r: bool)
        requires
            self.wf(),
        ensures
            r == self.spec_contains(point),
    {
        point.x >= self.lower_bounds.x && point.x < self.lower_bounds.x + self.sizes.x
            && point.y >= self.lower_bounds.y && point.y < self.lower_bounds.y + self.sizes.y
            && point.z >= self.lower_bounds.z && point.z < self.lower_bounds.z + self.sizes.z
    }

    /// Whether every cube of `other` lies within this box.
    pub fn contains_grid(&self, other: Grid) -> (r: bool)
        requires
            self.wf(),
            other.wf(),
        ensures
            r == (forall|p: GridPoint| other.spec_contains(p) ==> self.spec_contains(p)),
    {
        let r = self.lower_bounds.x <= other.lower_bounds.x && self.lower_bounds.y
            <= other.lower_bounds.y && self.lower_bounds.z <= other.lower_bounds.z
            && other.lower_bounds.x + other.sizes.x <= self.lower_bounds.x + self.sizes.x
            && other.lower_bounds.y + other.sizes.y <= self.lower_bounds.y + self.sizes.y
            && other.lower_bounds.z + other.sizes.z <= self.lower_bounds.z + self.sizes.z;
        proof {
            if r {
            } else {
                assert(other.spec_contains(other.lower_bounds));
                let far = GridPoint {
                    x: (other.lower_bounds.x + other.sizes.x - 1) as i32,
                    y: (other.lower_bounds.y + other.sizes.y - 1) as i32,
                    z: (other.lower_bounds.z + other.sizes.z - 1) as i32,
                };
                assert(other.spec_contains(far));
                assert(!(self.spec_contains(other.lower_bounds) && self.spec_contains(far)));
            }
        }
        r
    }

    /// Determines whether a point lies within the box and, if it does,
    /// returns the flattened array index for it.
    pub fn index(&self, point: GridPoint) -> (r: Option<usize>)
        requires
            self.wf(),
        ensures
            r is Some <==> self.spec_contains(point),
            r is Some ==> r->0 == self.spec_index_of(point),
    {
        if !self.contains_cube(point) {
            return None;
        }
        proof {
            lemma_index_in_range(*self, point);
        }
        let dx = (point.x - self.lower_bounds.x) as usize;
        let dy = (point.y - self.lower_bounds.y) as usize;
        let dz = (point.z - self.lower_bounds.z) as usize;
        proof {
            lemma_volume_bounds(*self);
            lemma_flat_index_bound(
                dx as int,
                dy as int,
                dz as int,
                self.sizes.x as int,
                self.sizes.y as int,
                self.sizes.z as int,
            );
        }
        Some((dx * (self.sizes.y as usize) + dy) * (self.sizes.z as usize) + dz)
    }
}

/// A well-formed grid's volume and all its partial size products fit the
/// indexing type.
pub proof fn lemma_volume_bounds(g: Grid)
    requires
        g.wf(),
    ensures
        0 < g.spec_volume() <= usize::MAX,
        0 < g.sizes.x * g.sizes.y <= usize::MAX,
{
    assert(0 < g.sizes.x * g.sizes.y && g.sizes.x * g.sizes.y * 1 <= g.sizes.x * g.sizes.y
        * g.sizes.z && 0 < g.sizes.x * g.sizes.y * g.sizes.z) by (nonlinear_arith)
        requires
            0 < g.sizes.x,
            0 < g.sizes.y,
            0 < g.sizes.z,
    ;
}

/// The flattened row-major index of in-range offsets lies within the volume.
proof fn lemma_flat_index_bound(dx: int, dy: int, dz: int, sx: int, sy: int, sz: int)
    requires
        0 <= dx < sx,
        0 <= dy < sy,
        0 <= dz < sz,
    ensures
        0 <= (dx * sy + dy) * sz + dz < sx * sy * sz,
        dx * sy + dy < sx * sy,
{
    assert(0 <= (dx * sy + dy) * sz + dz < sx * sy * sz && dx * sy + dy < sx * sy)
        by (nonlinear_arith)
        requires
            0 <= dx < sx,
            0 <= dy < sy,
            0 <= dz < sz,
    ;
}

/// An in-bounds cube's flattened index lies within the volume.
pub proof fn lemma_index_in_range(g: Grid, p: GridPoint)
    requires
        g.wf(),
        g.spec_contains(p),
    ensures
        0 <= g.spec_index_of(p) < g.spec_volume(),
{
    lemma_flat_index_bound(
        p.x - g.lower().x,
        p.y - g.lower().y,
        p.z - g.lower().z,
        g.size().x as int,
        g.size().y as int,
        g.size().z as int,
    );
}

/// Distinct in-bounds cubes have distinct flattened indices.
pub proof fn lemma_index_injective(g: Grid, p: GridPoint, q: GridPoint)
    requires
        g.wf(),
        g.spec_contains(p),
        g.spec_contains(q),
        g.spec_index_of(p) == g.spec_index_of(q),
    ensures
        p == q,
{
    let px = p.x - g.lower().x;
    let py = p.y - g.lower().y;
    let pz = p.z - g.lower().z;
    let qx = q.x - g.lower().x;
    let qy = q.y - g.lower().y;
    let qz = q.z - g.lower().z;
    let sy = g.size().y as int;
    let sz = g.size().z as int;
    assert(px == qx && py == qy && pz == qz) by (nonlinear_arith)
        requires
            0 <= px,
            0 <= qx,
            0 <= py < sy,
            0 <= qy < sy,
            0 <= pz < sz,
            0 <= qz < sz,
            (px * sy + py) * sz + pz == (qx * sy + qy) * sz + qz,
    ;
}

} // verus!
