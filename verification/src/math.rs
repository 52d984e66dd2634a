//! Integer coordinate types: grid points and vectors, cube faces, face-keyed
//! containers, and integer matrices for face orientation.

use vstd::prelude::*;

verus! {

/// Coordinates that are locked to the cube grid.
pub type GridCoordinate = i32;

/// A position locked to the cube grid.
#[derive(Clone, Copy, Debug, PartialEq, Eq, Hash, Structural)]
pub struct GridPoint {
    pub x: GridCoordinate,
    pub y: GridCoordinate,
    pub z: GridCoordinate,
}

/// A displacement locked to the cube grid.
#[derive(Clone, Copy, Debug, PartialEq, Eq, Hash, Structural)]
pub struct GridVector {
    pub x: GridCoordinate,
    pub y: GridCoordinate,
    pub z: GridCoordinate,
}

impl GridPoint {
    /// Construct a point from its coordinates.
    pub fn new(x: GridCoordinate, y: GridCoordinate, z: GridCoordinate) -> (r: GridPoint)
        ensures
            r == (GridPoint { x, y, z }),
    {
        GridPoint { x, y, z }
    }

    /// Whether adding `v` to this point stays within the coordinate type.
    pub open spec fn can_add(self, v: GridVector) -> bool {
        &&& i32::MIN <= self.x + v.x <= i32::MAX
        &&& i32::MIN <= self.y + v.y <= i32::MAX
        &&& i32::MIN <= self.z + v.z <= i32::MAX
    }

    /// The point translated by a vector.
    pub fn add(self, v: GridVector) -> (r: GridPoint)
        requires
            self.can_add(v),
        ensures
            r.x == self.x + v.x,
            r.y == self.y + v.y,
            r.z == self.z + v.z,
    {
        GridPoint { x: self.x + v.x, y: self.y + v.y, z: self.z + v.z }
    }
}

impl GridVector {
    /// Construct a vector from its coordinates.
    pub fn new(x: GridCoordinate, y: GridCoordinate, z: GridCoordinate) -> (r: GridVector)
        ensures
            r == (GridVector { x, y, z }),
    {
        GridVector { x, y, z }
    }

    /// Squared Euclidean magnitude, as an unbounded integer.
    pub open spec fn spec_magnitude_squared(self) -> int {
        self.x * self.x + self.y * self.y + self.z * self.z
    }
}

/// Compute the squared magnitude of a [`GridVector`] whose coordinates are
/// small enough that the result fits the coordinate type.
pub fn int_magnitude_squared(v: GridVector) -> (r: GridCoordinate)
    requires
        -26000 <= v.x <= 26000,
        -26000 <= v.y <= 26000,
        -26000 <= v.z <= 26000,
    ensures
        r == v.spec_magnitude_squared(),
{
    proof {
        assert(0 <= v.x * v.x <= 676000000 && 0 <= v.y * v.y <= 676000000 && 0 <= v.z * v.z
            <= 676000000) by (nonlinear_arith)
            requires
                -26000 <= v.x <= 26000,
                -26000 <= v.y <= 26000,
                -26000 <= v.z <= 26000,
        ;
    }
    v.x * v.x + v.y * v.y + v.z * v.z
}

/// Identifies a face of a cube or an orthogonal unit vector, except for
/// [`WITHIN`](Face::WITHIN) meaning "zero distance and undefined direction".
#[derive(Clone, Copy, Debug, PartialEq, Eq, Hash, Structural)]
pub enum Face {
    /// The interior volume of a cube, or an undefined direction.
    /// Corresponds to the vector `(0, 0, 0)`.
    WITHIN,
    /// Negative X; the face whose normal vector is `(-1, 0, 0)`.
    NX,
    /// Negative Y; the face whose normal vector is `(0, -1, 0)`; downward.
    NY,
    /// Negative Z; the face whose normal vector is `(0, 0, -1)`.
    NZ,
    /// Positive X; the face whose normal vector is `(1, 0, 0)`.
    PX,
    /// Positive Y; the face whose normal vector is `(0, 1, 0)`; upward.
    PY,
    /// Positive Z; the face whose normal vector is `(0, 0, 1)`.
    PZ,
}

impl Face {
    /// All the values of [`Face`] except for [`Face::WITHIN`].
    pub fn all_six() -> (r: [Face; 6])
        ensures
            r@ == seq![Face::NX, Face::NY, Face::NZ, Face::PX, Face::PY, Face::PZ],
    {
        let r = [Face::NX, Face::NY, Face::NZ, Face::PX, Face::PY, Face::PZ];
        proof {
            assert(r@ =~= seq![Face::NX, Face::NY, Face::NZ, Face::PX, Face::PY, Face::PZ]);
        }
        r
    }

    /// All the values of [`Face`], with [`Face::WITHIN`] listed first.
    pub fn all_seven() -> (r: [Face; 7])
        ensures
            r@ == seq![
                Face::WITHIN,
                Face::NX,
                Face::NY,
                Face::NZ,
                Face::PX,
                Face::PY,
                Face::PZ,
            ],
    {
        let r = [Face::WITHIN, Face::NX, Face::NY, Face::NZ, Face::PX, Face::PY, Face::PZ];
        proof {
            assert(r@ =~= seq![
                Face::WITHIN,
                Face::NX,
                Face::NY,
                Face::NZ,
                Face::PX,
                Face::PY,
                Face::PZ,
            ]);
        }
        r
    }

    /// Returns which axis this face's normal vector is parallel to, with the
    /// numbering X = 0, Y = 1, Z = 2.
    ///
    /// [`Face::WITHIN`] has no axis, so that input is excluded.
    pub fn axis_number(self) -> (r: usize)
        requires
            self != Face::WITHIN,
        ensures
            (self == Face::NX || self == Face::PX) ==> r == 0,
            (self == Face::NY || self == Face::PY) ==> r == 1,
            (self == Face::NZ || self == Face::PZ) ==> r == 2,
    {
        match self {
            Face::WITHIN => 0,
            Face::NX | Face::PX => 0,
            Face::NY | Face::PY => 1,
            Face::NZ | Face::PZ => 2,
        }
    }

    /// Returns whether this face is a "positive" face: one whose unit vector's
    /// nonzero coordinate is positive.
    pub fn is_positive(self) -> (r: bool)
        ensures
            r == (self == Face::PX || self == Face::PY || self == Face::PZ),
    {
        matches!(self, Face::PX | Face::PY | Face::PZ)
    }

    /// Returns whether this face is a negative face: one whose unit vector's
    /// nonzero coordinate is negative.
    pub fn is_negative(self) -> (r: bool)
        ensures
            r == (self == Face::NX || self == Face::NY || self == Face::NZ),
    {
        matches!(self, Face::NX | Face::NY | Face::NZ)
    }

    /// The opposite face, as a spec-level function.
    pub open spec fn spec_opposite(self) -> Face {
        match self {
            Face::WITHIN => Face::WITHIN,
            Face::NX => Face::PX,
            Face::NY => Face::PY,
            Face::NZ => Face::PZ,
            Face::PX => Face::NX,
            Face::PY => Face::NY,
            Face::PZ => Face::NZ,
        }
    }

    /// Returns the opposite face (maps [`PX`](Self::PX) to [`NX`](Self::NX)
    /// and so on).
    pub fn opposite(self) -> (r: Face)
        ensures
            r == self.spec_opposite(),
    {
        match self {
            Face::WITHIN => Face::WITHIN,
            Face::NX => Face::PX,
            Face::NY => Face::PY,
            Face::NZ => Face::PZ,
            Face::PX => Face::NX,
            Face::PY => Face::NY,
            Face::PZ => Face::NZ,
        }
    }

    /// The normal vector of this face, as a spec-level function.
    pub open spec fn spec_normal_vector(self) -> GridVector {
        match self {
            Face::WITHIN => GridVector { x: 0, y: 0, z: 0 },
            Face::NX => GridVector { x: -1i32, y: 0, z: 0 },
            Face::NY => GridVector { x: 0, y: -1i32, z: 0 },
            Face::NZ => GridVector { x: 0, y: 0, z: -1i32 },
            Face::PX => GridVector { x: 1, y: 0, z: 0 },
            Face::PY => GridVector { x: 0, y: 1, z: 0 },
            Face::PZ => GridVector { x: 0, y: 0, z: 1 },
        }
    }

    /// Returns the vector normal to this face. [`WITHIN`](Self::WITHIN) is
    /// assigned the zero vector.
    pub fn normal_vector(self) -> (r: GridVector)
        ensures
            r == self.spec_normal_vector(),
    {
        match self {
            Face::WITHIN => GridVector { x: 0, y: 0, z: 0 },
            Face::NX => GridVector { x: -1i32, y: 0, z: 0 },
            Face::NY => GridVector { x: 0, y: -1i32, z: 0 },
            Face::NZ => GridVector { x: 0, y: 0, z: -1i32 },
            Face::PX => GridVector { x: 1, y: 0, z: 0 },
            Face::PY => GridVector { x: 0, y: 1, z: 0 },
            Face::PZ => GridVector { x: 0, y: 0, z: 1 },
        }
    }

    /// The cross product of two faces' normal vectors, as a face, at the spec
    /// level: the zero vector maps to [`Face::WITHIN`].
    pub open spec fn spec_cross(self, other: Face) -> Face {
        cross_table(self, other)
    }

    /// Returns the face whose normal is the cross product of these faces'
    /// normals (with the zero vector mapping to [`Face::WITHIN`]).
    pub fn cross(self, other: Self) -> (r: Self)
        ensures
            r == self.spec_cross(other),
            r.spec_normal_vector() == spec_cross_vector(
                self.spec_normal_vector(),
                other.spec_normal_vector(),
            ),
    {
        let r = match (self, other) {
            (Face::WITHIN, _) => Face::WITHIN,
            (_, Face::WITHIN) => Face::WITHIN,

            (Face::NX, Face::NX) => Face::WITHIN,
            (Face::NY, Face::NY) => Face::WITHIN,
            (Face::NZ, Face::NZ) => Face::WITHIN,
            (Face::PX, Face::PX) => Face::WITHIN,
            (Face::PY, Face::PY) => Face::WITHIN,
            (Face::PZ, Face::PZ) => Face::WITHIN,

            (Face::NX, Face::PX) => Face::WITHIN,
            (Face::NY, Face::PY) => Face::WITHIN,
            (Face::NZ, Face::PZ) => Face::WITHIN,
            (Face::PX, Face::NX) => Face::WITHIN,
            (Face::PY, Face::NY) => Face::WITHIN,
            (Face::PZ, Face::NZ) => Face::WITHIN,

            (Face::NX, Face::NY) => Face::PZ,
            (Face::NX, Face::NZ) => Face::NY,
            (Face::NX, Face::PY) => Face::NZ,
            (Face::NX, Face::PZ) => Face::PY,

            (Face::NY, Face::NX) => Face::NZ,
            (Face::NY, Face::NZ) => Face::PX,
            (Face::NY, Face::PX) => Face::PZ,
            (Face::NY, Face::PZ) => Face::NX,

            (Face::NZ, Face::NX) => Face::PY,
            (Face::NZ, Face::NY) => Face::NX,
            (Face::NZ, Face::PX) => Face::NY,
            (Face::NZ, Face::PY) => Face::PX,

            (Face::PX, Face::NY) => Face::NZ,
            (Face::PX, Face::NZ) => Face::PY,
            (Face::PX, Face::PY) => Face::PZ,
            (Face::PX, Face::PZ) => Face::NY,

            (Face::PY, Face::NX) => Face::PZ,
            (Face::PY, Face::NZ) => Face::NX,
            (Face::PY, Face::PX) => Face::NZ,
            (Face::PY, Face::PZ) => Face::PX,

            (Face::PZ, Face::NX) => Face::NY,
            (Face::PZ, Face::NY) => Face::PX,
            (Face::PZ, Face::PX) => Face::PY,
            (Face::PZ, Face::PY) => Face::NX,
        };
        r
    }

    /// A homogeneous transformation matrix which, if given points on the
    /// square with x in `[0, scale]`, y in `[0, scale]` and z = 0, converts
    /// them to points that lie on this face of the cube spanning `[0, scale]`
    /// on all axes.
    ///
    /// `Face::NZ.matrix(...)` is the identity matrix and all others are
    /// consistent with that; the rotations chosen for the other faces are
    /// arbitrary but fixed.
    pub fn matrix(self, scale: GridCoordinate) -> (r: GridMatrix)
        ensures
            r == self.spec_matrix(scale),
    {
        match self {
            Face::WITHIN => GridMatrix::new(0, 0, 0, 0, 0, 0, 0, 0, 0, 0, 0, 0),
            Face::NX => GridMatrix::new(0, 1, 0, 0, 0, 1, 1, 0, 0, 0, 0, 0),
            Face::NY => GridMatrix::new(0, 0, 1, 1, 0, 0, 0, 1, 0, 0, 0, 0),
            Face::NZ => GridMatrix::new(1, 0, 0, 0, 1, 0, 0, 0, 1, 0, 0, 0),
            Face::PX => GridMatrix::new(0, -1, 0, 0, 0, 1, -1, 0, 0, scale, scale, 0),
            Face::PY => GridMatrix::new(0, 0, 1, -1, 0, 0, 0, -1, 0, scale, scale, 0),
            Face::PZ => GridMatrix::new(1, 0, 0, 0, -1, 0, 0, 0, -1, 0, scale, scale),
        }
    }

    /// The matrix produced by [`Face::matrix`], as a spec-level function.
    pub open spec fn spec_matrix(self, scale: GridCoordinate) -> GridMatrix {
        match self {
            Face::WITHIN => GridMatrix {
                x: GridVector { x: 0, y: 0, z: 0 },
                y: GridVector { x: 0, y: 0, z: 0 },
                z: GridVector { x: 0, y: 0, z: 0 },
                w: GridVector { x: 0, y: 0, z: 0 },
            },
            Face::NX => GridMatrix {
                x: GridVector { x: 0, y: 1, z: 0 },
                y: GridVector { x: 0, y: 0, z: 1 },
                z: GridVector { x: 1, y: 0, z: 0 },
                w: GridVector { x: 0, y: 0, z: 0 },
            },
            Face::NY => GridMatrix {
                x: GridVector { x: 0, y: 0, z: 1 },
                y: GridVector { x: 1, y: 0, z: 0 },
                z: GridVector { x: 0, y: 1, z: 0 },
                w: GridVector { x: 0, y: 0, z: 0 },
            },
            Face::NZ => GridMatrix {
                x: GridVector { x: 1, y: 0, z: 0 },
                y: GridVector { x: 0, y: 1, z: 0 },
                z: GridVector { x: 0, y: 0, z: 1 },
                w: GridVector { x: 0, y: 0, z: 0 },
            },
            Face::PX => GridMatrix {
                x: GridVector { x: 0, y: -1i32, z: 0 },
                y: GridVector { x: 0, y: 0, z: 1 },
                z: GridVector { x: -1i32, y: 0, z: 0 },
                w: GridVector { x: scale, y: scale, z: 0 },
            },
            Face::PY => GridMatrix {
                x: GridVector { x: 0, y: 0, z: 1 },
                y: GridVector { x: -1i32, y: 0, z: 0 },
                z: GridVector { x: 0, y: -1i32, z: 0 },
                w: GridVector { x: scale, y: scale, z: 0 },
            },
            Face::PZ => GridMatrix {
                x: GridVector { x: 1, y: 0, z: 0 },
                y: GridVector { x: 0, y: -1i32, z: 0 },
                z: GridVector { x: 0, y: 0, z: -1i32 },
                w: GridVector { x: 0, y: scale, z: scale },
            },
        }
    }
}

/// A rotation (or reflection) of the cube lattice, recorded as the images of
/// the three positive axes.
#[derive(Clone, Copy, Debug, PartialEq, Eq, Hash, Structural)]
pub struct GridRotation {
    /// The face the positive X axis maps to.
    pub x: Face,
    /// The face the positive Y axis maps to.
    pub y: Face,
    /// The face the positive Z axis maps to.
    pub z: Face,
}

impl GridRotation {
    /// The rotation that leaves every axis in place.
    pub fn identity() -> (r: GridRotation)
        ensures
            r == (GridRotation { x: Face::PX, y: Face::PY, z: Face::PZ }),
    {
        GridRotation { x: Face::PX, y: Face::PY, z: Face::PZ }
    }
}

/// The cross product of two grid vectors.
pub open spec fn spec_cross_vector(a: GridVector, b: GridVector) -> GridVector {
    GridVector {
        x: (a.y * b.z - a.z * b.y) as i32,
        y: (a.z * b.x - a.x * b.z) as i32,
        z: (a.x * b.y - a.y * b.x) as i32,
    }
}

/// Table of cross products of face normal vectors.
pub open spec fn cross_table(a: Face, b: Face) -> Face {
    match (a, b) {
        (Face::WITHIN, _) => Face::WITHIN,
        (_, Face::WITHIN) => Face::WITHIN,

        (Face::NX, Face::NX) => Face::WITHIN,
        (Face::NY, Face::NY) => Face::WITHIN,
        (Face::NZ, Face::NZ) => Face::WITHIN,
        (Face::PX, Face::PX) => Face::WITHIN,
        (Face::PY, Face::PY) => Face::WITHIN,
        (Face::PZ, Face::PZ) => Face::WITHIN,

        (Face::NX, Face::PX) => Face::WITHIN,
        (Face::NY, Face::PY) => Face::WITHIN,
        (Face::NZ, Face::PZ) => Face::WITHIN,
        (Face::PX, Face::NX) => Face::WITHIN,
        (Face::PY, Face::NY) => Face::WITHIN,
        (Face::PZ, Face::NZ) => Face::WITHIN,

        (Face::NX, Face::NY) => Face::PZ,
        (Face::NX, Face::NZ) => Face::NY,
        (Face::NX, Face::PY) => Face::NZ,
        (Face::NX, Face::PZ) => Face::PY,

        (Face::NY, Face::NX) => Face::NZ,
        (Face::NY, Face::NZ) => Face::PX,
        (Face::NY, Face::PX) => Face::PZ,
        (Face::NY, Face::PZ) => Face::NX,

        (Face::NZ, Face::NX) => Face::PY,
        (Face::NZ, Face::NY) => Face::NX,
        (Face::NZ, Face::PX) => Face::NY,
        (Face::NZ, Face::PY) => Face::PX,

        (Face::PX, Face::NY) => Face::NZ,
        (Face::PX, Face::NZ) => Face::PY,
        (Face::PX, Face::PY) => Face::PZ,
        (Face::PX, Face::PZ) => Face::NY,

        (Face::PY, Face::NX) => Face::PZ,
        (Face::PY, Face::NZ) => Face::NX,
        (Face::PY, Face::PX) => Face::NZ,
        (Face::PY, Face::PZ) => Face::PX,

        (Face::PZ, Face::NX) => Face::NY,
        (Face::PZ, Face::NY) => Face::PX,
        (Face::PZ, Face::PX) => Face::PY,
        (Face::PZ, Face::PY) => Face::NX,
    }
}

/// A 3x4 integer matrix in column-major layout: three linear columns `x`,
/// `y`, `z` and a translation column `w`, understood as a homogeneous
/// transformation of grid points.
#[derive(Clone, Copy, Debug, PartialEq, Eq, Structural)]
pub struct GridMatrix {
    /// First linear column.
    pub x: GridVector,
    /// Second linear column.
    pub y: GridVector,
    /// Third linear column.
    pub z: GridVector,
    /// Translation column.
    pub w: GridVector,
}

impl GridMatrix {
    /// Construct a matrix from its entries in column-major order.
    pub fn new(
        x0: GridCoordinate,
        x1: GridCoordinate,
        x2: GridCoordinate,
        y0: GridCoordinate,
        y1: GridCoordinate,
        y2: GridCoordinate,
        z0: GridCoordinate,
        z1: GridCoordinate,
        z2: GridCoordinate,
        w0: GridCoordinate,
        w1: GridCoordinate,
        w2: GridCoordinate,
    ) -> (r: GridMatrix)
        ensures
            r == (GridMatrix {
                x: GridVector { x: x0, y: x1, z: x2 },
                y: GridVector { x: y0, y: y1, z: y2 },
                z: GridVector { x: z0, y: z1, z: z2 },
                w: GridVector { x: w0, y: w1, z: w2 },
            }),
    {
        GridMatrix {
            x: GridVector { x: x0, y: x1, z: x2 },
            y: GridVector { x: y0, y: y1, z: y2 },
            z: GridVector { x: z0, y: z1, z: z2 },
            w: GridVector { x: w0, y: w1, z: w2 },
        }
    }
}

/// Container for values keyed by [`Face`]s.
#[derive(Clone, Copy, Debug, PartialEq, Eq)]
pub struct FaceMap<V> {
    /// The value whose key is `Face::WITHIN`.
    pub within: V,
    /// The value whose key is `Face::NX`.
    pub nx: V,
    /// The value whose key is `Face::NY`.
    pub ny: V,
    /// The value whose key is `Face::NZ`.
    pub nz: V,
    /// The value whose key is `Face::PX`.
    pub px: V,
    /// The value whose key is `Face::PY`.
    pub py: V,
    /// The value whose key is `Face::PZ`.
    pub pz: V,
}

impl<V> FaceMap<V> {
    /// The value stored under the given face, as a spec-level function.
    pub open spec fn spec_index(self, face: Face) -> V {
        match face {
            Face::WITHIN => self.within,
            Face::NX => self.nx,
            Face::NY => self.ny,
            Face::NZ => self.nz,
            Face::PX => self.px,
            Face::PY => self.py,
            Face::PZ => self.pz,
        }
    }

    /// Compute and store a value for each [`Face`] enum variant.
    pub fn generate(f: impl Fn(Face) -> V) -> (r: FaceMap<V>)
        requires
            forall|face: Face| f.requires((face,)),
        ensures
            f.ensures((Face::WITHIN,), r.within),
            f.ensures((Face::NX,), r.nx),
            f.ensures((Face::NY,), r.ny),
            f.ensures((Face::NZ,), r.nz),
            f.ensures((Face::PX,), r.px),
            f.ensures((Face::PY,), r.py),
            f.ensures((Face::PZ,), r.pz),
    {
        FaceMap {
            within: f(Face::WITHIN),
            nx: f(Face::NX),
            ny: f(Face::NY),
            nz: f(Face::NZ),
            px: f(Face::PX),
            py: f(Face::PY),
            pz: f(Face::PZ),
        }
    }

    /// Access all of the values, in the declaration order of [`Face`]'s
    /// variants with `WITHIN` first.
    pub fn values(&self) -> (r: [&V; 7])
        ensures
            r@ == seq![&self.within, &self.nx, &self.ny, &self.nz, &self.px, &self.py, &self.pz],
    {
        let r = [&self.within, &self.nx, &self.ny, &self.nz, &self.px, &self.py, &self.pz];
        proof {
            assert(r@ =~= seq![
                &self.within,
                &self.nx,
                &self.ny,
                &self.nz,
                &self.px,
                &self.py,
                &self.pz,
            ]);
        }
        r
    }

    /// Transform each value, together with the face it is stored under.
    pub fn map<U>(self, f: impl Fn(Face, V) -> U) -> (r: FaceMap<U>)
        requires
            forall|face: Face, v: V| f.requires((face, v)),
        ensures
            f.ensures((Face::WITHIN, self.within), r.within),
            f.ensures((Face::NX, self.nx), r.nx),
            f.ensures((Face::NY, self.ny), r.ny),
            f.ensures((Face::NZ, self.nz), r.nz),
            f.ensures((Face::PX, self.px), r.px),
            f.ensures((Face::PY, self.py), r.py),
            f.ensures((Face::PZ, self.pz), r.pz),
    {
        FaceMap {
            within: f(Face::WITHIN, self.within),
            nx: f(Face::NX, self.nx),
            ny: f(Face::NY, self.ny),
            nz: f(Face::NZ, self.nz),
            px: f(Face::PX, self.px),
            py: f(Face::PY, self.py),
            pz: f(Face::PZ, self.pz),
        }
    }
}

/// The combination of a [`GridPoint`] identifying a unit cube and a [`Face`]
/// identifying one face of it.
#[derive(Clone, Copy, Debug, PartialEq, Eq, Hash, Structural)]
pub struct CubeFace {
    pub cube: GridPoint,
    pub face: Face,
}

impl CubeFace {
    /// Pair a cube with one of its faces.
    pub fn new(cube: GridPoint, face: Face) -> (r: CubeFace)
        ensures
            r == (CubeFace { cube, face }),
    {
        CubeFace { cube, face }
    }

    /// Computes the cube that is adjacent in the direction of `self.face`.
    /// Equal to `self.cube` if the face is [`Face::WITHIN`].
    pub fn adjacent(self) -> (r: GridPoint)
        requires
            self.cube.can_add(self.face.spec_normal_vector()),
        ensures
            r.x == self.cube.x + self.face.spec_normal_vector().x,
            r.y == self.cube.y + self.face.spec_normal_vector().y,
            r.z == self.cube.z + self.face.spec_normal_vector().z,
    {
        self.cube.add(self.face.normal_vector())
    }
}

} // verus!
