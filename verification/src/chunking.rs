//! Algorithms for grouping cubes into cubical batches (chunks): a
//! precomputed, distance-sorted, octant-mirrored enumeration of the chunk
//! offsets intersecting a view sphere.
//!
//! For the time being, the chunk size is locked to the constant
//! [`CHUNK_SIZE`].

use vstd::prelude::*;

use crate::grid::Grid;
use crate::math::{int_magnitude_squared, GridCoordinate, GridPoint, GridVector};

verus! {

/// Chunk size (side length), fixed at compile time.
pub const CHUNK_SIZE: GridCoordinate = 16;

/// The largest canonical squared view distance a chart accepts, in chunk
/// units; larger requests are clamped so that all chart arithmetic stays
/// within the coordinate type.
pub const MAX_DISTANCE_SQUARED: u32 = 400000000;

/// A view distance in canonical form: the squared distance in chunk units,
/// rounded up to an integer and clamped to the representable range. Charts
/// for negative or meaningless distances use zero.
#[derive(Clone, Copy, Debug, PartialEq, Eq, Hash, Structural)]
pub struct ViewDistance {
    /// The squared view distance in chunk units, at most
    /// [`MAX_DISTANCE_SQUARED`].
    pub squared_chunks: u32,
}

impl ViewDistance {
    /// The canonical form's invariant.
    pub open spec fn wf(self) -> bool {
        self.squared_chunks <= MAX_DISTANCE_SQUARED
    }

    /// A view distance from its squared value in chunk units, clamping
    /// oversized requests.
    pub fn from_squared_chunks(squared_chunks: u32) -> (r: ViewDistance)
        ensures
            r.wf(),
            squared_chunks <= MAX_DISTANCE_SQUARED ==> r.squared_chunks == squared_chunks,
            squared_chunks > MAX_DISTANCE_SQUARED ==> r.squared_chunks == MAX_DISTANCE_SQUARED,
    {
        if squared_chunks > MAX_DISTANCE_SQUARED {
            ViewDistance { squared_chunks: MAX_DISTANCE_SQUARED }
        } else {
            ViewDistance { squared_chunks }
        }
    }

    /// The zero view distance.
    pub fn zero() -> (r: ViewDistance)
        ensures
            r.wf(),
            r.squared_chunks == 0,
    {
        ViewDistance { squared_chunks: 0 }
    }
}

/// Type to distinguish chunk coordinates from cube coordinates.
#[derive(Clone, Copy, Debug, PartialEq, Eq, Hash, Structural)]
pub struct ChunkPos(pub GridPoint);

impl ChunkPos {
    /// Construct a `ChunkPos` from coordinates.
    pub fn new(x: GridCoordinate, y: GridCoordinate, z: GridCoordinate) -> (r: Self)
        ensures
            r == ChunkPos(GridPoint { x, y, z }),
    {
        ChunkPos(GridPoint { x, y, z })
    }

    /// The grid of cubes this chunk covers.
    pub fn grid(self) -> (r: Grid)
        requires
            -134217728 <= self.0.x < 134217727,
            -134217728 <= self.0.y < 134217727,
            -134217728 <= self.0.z < 134217727,
        ensures
            r.wf(),
            r.lower() == (GridPoint {
                x: (self.0.x * 16) as i32,
                y: (self.0.y * 16) as i32,
                z: (self.0.z * 16) as i32,
            }),
            r.size() == (GridVector { x: 16, y: 16, z: 16 }),
    {
        Grid::new(
            GridPoint { x: self.0.x * 16, y: self.0.y * 16, z: self.0.z * 16 },
            GridVector { x: 16, y: 16, z: 16 },
        )
    }
}

/// Scale a cube position down to obtain the containing chunk, with floor
/// semantics for negative coordinates.
pub fn cube_to_chunk(cube: GridPoint) -> (r: ChunkPos)
    ensures
        r.0.x == (cube.x as int) / 16,
        r.0.y == (cube.y as int) / 16,
        r.0.z == (cube.z as int) / 16,
{
    ChunkPos(GridPoint { x: floor_div_16(cube.x), y: floor_div_16(cube.y), z: floor_div_16(cube.z) })
}

/// Divide by the chunk size, rounding toward negative infinity.
fn floor_div_16(c: i32) -> (r: i32)
    ensures
        r == (c as int) / 16,
{
    if c >= 0 {
        c / 16
    } else {
        let r = -((-(c as i64) + 15) / 16);
        proof {
            assert(r == (c as int) / 16) by (nonlinear_arith)
                requires
                    c < 0,
                    r == -((-(c as int) + 15) / 16),
            ;
        }
        r as i32
    }
}

/// The squared magnitude of the elementwise `max(v - 1, 0)` of a
/// nonnegative offset: the squared distance from the origin chunk's
/// farthest corner to the chunk's nearest corner.
pub open spec fn spec_nearest_corner_mag(v: GridVector) -> int {
    let x = if v.x > 0 {
        v.x - 1
    } else {
        0
    };
    let y = if v.y > 0 {
        v.y - 1
    } else {
        0
    };
    let z = if v.z > 0 {
        v.z - 1
    } else {
        0
    };
    x * x + y * y + z * z
}

/// Whether a nonnegative octant offset belongs to the chart for squared
/// distance `d`: each coordinate at most `d`, and the offset's nearest
/// corner within the view sphere around the viewpoint chunk's farthest
/// corner (the Minkowski sum of the sphere and a unit chunk cube).
pub open spec fn chart_member(d: int, v: GridVector) -> bool {
    &&& 0 <= v.x <= d
    &&& 0 <= v.y <= d
    &&& 0 <= v.z <= d
    &&& spec_nearest_corner_mag(v) <= d
}

/// The sort key order of octant offsets: squared magnitude first for
/// correct distance order, then the coordinates as a deterministic
/// tie-break.
pub open spec fn key_le(a: GridVector, b: GridVector) -> bool {
    let ma = a.spec_magnitude_squared();
    let mb = b.spec_magnitude_squared();
    if ma != mb {
        ma < mb
    } else if a.x != b.x {
        a.x < b.x
    } else if a.y != b.y {
        a.y < b.y
    } else {
        a.z <= b.z
    }
}

/// A sequence sorted by the chart key.
pub open spec fn sorted_by_key(s: Seq<GridVector>) -> bool {
    forall|i: int, j: int| 0 <= i < j < s.len() ==> key_le(#[trigger] s[i], #[trigger] s[j])
}

/// The key order is total.
pub proof fn lemma_key_total(a: GridVector, b: GridVector)
    ensures
        key_le(a, b) || key_le(b, a),
        key_le(a, b) && key_le(b, a) ==> a == b,
{
}

/// The key order is transitive.
pub proof fn lemma_key_trans(a: GridVector, b: GridVector, c: GridVector)
    requires
        key_le(a, b),
        key_le(b, c),
    ensures
        key_le(a, c),
{
}

/// What a well-formed chart's octant listing looks like: exactly the
/// offsets belonging to the view distance, each once, in key order.
pub open spec fn chart_wf(d: int, octant: Seq<GridVector>) -> bool {
    &&& sorted_by_key(octant)
    &&& forall|i: int, j: int| 0 <= i < j < octant.len() ==> octant[i] != octant[j]
    &&& forall|i: int| 0 <= i < octant.len() ==> chart_member(d, #[trigger] octant[i])
    &&& forall|v: GridVector| #[trigger] chart_member(d, v) ==> octant.contains(v)
}

/// A sorted, duplicate-free listing of a set of offsets is unique: two
/// well-formed listings for the same distance are equal.
pub proof fn lemma_chart_listing_unique(s1: Seq<GridVector>, s2: Seq<GridVector>)
    requires
        sorted_by_key(s1),
        sorted_by_key(s2),
        forall|i: int, j: int| 0 <= i < j < s1.len() ==> s1[i] != s1[j],
        forall|i: int, j: int| 0 <= i < j < s2.len() ==> s2[i] != s2[j],
        forall|v: GridVector| s1.contains(v) <==> s2.contains(v),
    ensures
        s1 == s2,
    decreases s1.len(),
{
    if s1.len() == 0 {
        if s2.len() > 0 {
            assert(s2.contains(s2[0]));
        }
        assert(s1 =~= s2);
    } else {
        assert(s1.contains(s1[0]));
        assert(s2.contains(s1[0]));
        if s2.len() == 0 {
            assert(false);
        }
        // The heads are both the unique key-minimum of the common set.
        let i = choose|i: int| 0 <= i < s2.len() && s2[i] == s1[0];
        let j = choose|j: int| 0 <= j < s1.len() && s1[j] == s2[0];
        assert(s1.contains(s2[0]));
        assert(key_le(s2[0], s2[i]));
        assert(key_le(s1[0], s1[j]));
        lemma_key_total(s1[0], s2[0]);
        assert(s1[0] == s2[0]);
        let t1 = s1.drop_first();
        let t2 = s2.drop_first();
        assert forall|v: GridVector| t1.contains(v) implies t2.contains(v) by {
            let k = choose|k: int| 0 <= k < t1.len() && t1[k] == v;
            assert(s1[k + 1] == v);
            assert(s1.contains(v));
            assert(v != s1[0]);
            assert(s2.contains(v));
            let m = choose|m: int| 0 <= m < s2.len() && s2[m] == v;
            assert(m != 0);
            assert(t2[m - 1] == v);
        }
        assert forall|v: GridVector| t2.contains(v) implies t1.contains(v) by {
            let k = choose|k: int| 0 <= k < t2.len() && t2[k] == v;
            assert(s2[k + 1] == v);
            assert(s2.contains(v));
            assert(v != s2[0]);
            assert(s1.contains(v));
            let m = choose|m: int| 0 <= m < s1.len() && s1[m] == v;
            assert(m != 0);
            assert(t1[m - 1] == v);
        }
        assert(sorted_by_key(t1)) by {
            assert(forall|i: int, j: int|
                0 <= i < j < t1.len() ==> key_le(#[trigger] t1[i], #[trigger] t1[j]));
        }
        assert(sorted_by_key(t2)) by {
            assert(forall|i: int, j: int|
                0 <= i < j < t2.len() ==> key_le(#[trigger] t2[i], #[trigger] t2[j]));
        }
        assert(forall|i: int, j: int| 0 <= i < j < t1.len() ==> t1[i] != t1[j]);
        assert(forall|i: int, j: int| 0 <= i < j < t2.len() ==> t2[i] != t2[j]);
        assert(forall|v: GridVector| t1.contains(v) <==> t2.contains(v));
        lemma_chart_listing_unique(t1, t2);
        assert(s1 =~= s2) by {
            assert(forall|k: int| 1 <= k < s1.len() ==> s1[k] == t1[k - 1]);
            assert(forall|k: int| 1 <= k < s2.len() ==> s2[k] == t2[k - 1]);
        }
    }
}

/// Resizing is idempotent: a chart freshly built for a distance and a chart
/// of any history resized to that distance hold the same octant listing,
/// and so yield the same chunk positions around every origin.
pub proof fn lemma_resize_idempotent(c1: ChunkChart, c2: ChunkChart)
    requires
        c1.wf(),
        c2.wf(),
        c1.view_distance == c2.view_distance,
    ensures
        c1.octant_chunks@ == c2.octant_chunks@,
        forall|origin: ChunkPos|
            spec_chunks(c1.octant_chunks@, origin) == spec_chunks(c2.octant_chunks@, origin),
{
    let d = c1.view_distance.squared_chunks as int;
    assert forall|v: GridVector|
        c1.octant_chunks@.contains(v) <==> c2.octant_chunks@.contains(v) by {
        if c1.octant_chunks@.contains(v) {
            let i = choose|i: int|
                0 <= i < c1.octant_chunks@.len() && c1.octant_chunks@[i] == v;
            assert(chart_member(d, v));
        }
        if c2.octant_chunks@.contains(v) {
            let i = choose|i: int|
                0 <= i < c2.octant_chunks@.len() && c2.octant_chunks@[i] == v;
            assert(chart_member(d, v));
        }
    }
    lemma_chart_listing_unique(c1.octant_chunks@, c2.octant_chunks@);
}

/// The zero-distance boundary case: a chart built for distance zero lists
/// exactly the origin offset, and so yields exactly the origin chunk around
/// any viewpoint.
pub proof fn lemma_zero_distance_chart(chart: ChunkChart, origin: ChunkPos)
    requires
        chart.wf(),
        chart.view_distance.squared_chunks == 0,
    ensures
        chart.octant_chunks@ == seq![GridVector { x: 0, y: 0, z: 0 }],
        spec_chunks(chart.octant_chunks@, origin) == seq![origin],
{
    let zero = GridVector { x: 0, y: 0, z: 0 };
    assert(chart_member(0, zero));
    assert(chart.octant_chunks@.contains(zero));
    assert forall|i: int| 0 <= i < chart.octant_chunks@.len() implies chart.octant_chunks@[i]
        == zero by {
        assert(chart_member(0, chart.octant_chunks@[i]));
    }
    let k = choose|k: int|
        0 <= k < chart.octant_chunks@.len() && chart.octant_chunks@[k] == zero;
    if chart.octant_chunks@.len() > 1 {
        assert(chart.octant_chunks@[0] == zero && chart.octant_chunks@[1] == zero);
        assert(false);
    }
    assert(chart.octant_chunks@ =~= seq![zero]);
    assert(seq![zero].drop_last() =~= Seq::<GridVector>::empty());
    assert(seq![zero].last() == zero);
    assert(spec_chunks(Seq::<GridVector>::empty(), origin) =~= Seq::<ChunkPos>::empty());
    assert(spec_chunks(seq![zero], origin) == spec_chunks(seq![zero].drop_last(), origin)
        + spec_mirrors(zero, origin));
    assert(spec_chunks(seq![zero], origin) =~= spec_mirrors(zero, origin));
    assert(spec_mirrors(zero, origin) =~= seq![
        ChunkPos(
            GridPoint {
                x: (origin.0.x + 0) as i32,
                y: (origin.0.y + 0) as i32,
                z: (origin.0.z + 0) as i32,
            },
        ),
    ]);
    assert(spec_chunks(chart.octant_chunks@, origin) =~= seq![origin]);
}

/// Precomputed information about the spherical pattern of chunks within
/// view distance.
///
/// In order to use the same pattern for all possible view positions, a view
/// position is rounded to its enclosing chunk position; one octant of chunk
/// offsets is stored, sorted by distance, and the full sphere is produced
/// by mirroring.
#[derive(Clone, Debug, PartialEq, Eq)]
pub struct ChunkChart {
    /// The canonical view distance this chart was built for.
    pub view_distance: ViewDistance,
    /// One octant of chunk offsets, sorted by distance with coordinate
    /// tie-breaks.
    pub octant_chunks: Vec<GridVector>,
}

impl ChunkChart {
    /// The chart's invariant: its listing is exactly the sorted octant for
    /// its view distance.
    pub open spec fn wf(self) -> bool {
        &&& self.view_distance.wf()
        &&& chart_wf(self.view_distance.squared_chunks as int, self.octant_chunks@)
    }

    /// Construct the chart for a view distance.
    pub fn new(view_distance: ViewDistance) -> (r: ChunkChart)
        requires
            view_distance.wf(),
        ensures
            r.wf(),
            r.view_distance == view_distance,
    {
        let d: u32 = view_distance.squared_chunks;
        let limit: u32 = isqrt(d) + 1;
        let bound: u32 = if d < limit {
            d
        } else {
            limit
        };
        proof {
            assert(bound <= 20001) by (nonlinear_arith)
                requires
                    d <= 400000000,
                    (limit - 1) * (limit - 1) <= d,
                    limit >= 1,
                    bound <= limit,
                    bound <= d,
            ;
            // every member's coordinates are bounded by `bound`
            assert forall|v: GridVector| chart_member(d as int, v) implies 0 <= v.x <= bound && 0
                <= v.y <= bound && 0 <= v.z <= bound by {
                lemma_member_coordinate_bound(d as int, limit as int, v);
            }
        }
        let mut octant_chunks: Vec<GridVector> = Vec::new();
        let mut x: u32 = 0;
        while x <= bound
            invariant
                x <= bound + 1,
                bound <= 20001,
                d <= 400000000,
                forall|v: GridVector|
                    chart_member(d as int, v) ==> 0 <= v.x <= bound && 0 <= v.y <= bound && 0
                        <= v.z <= bound,
                sorted_by_key(octant_chunks@),
                forall|i: int, j: int|
                    0 <= i < j < octant_chunks@.len() ==> octant_chunks@[i] != octant_chunks@[j],
                forall|i: int|
                    0 <= i < octant_chunks@.len() ==> chart_member(
                        d as int,
                        #[trigger] octant_chunks@[i],
                    ) && octant_chunks@[i].x < x,
                forall|v: GridVector|
                    #[trigger] chart_member(d as int, v) && v.x < x ==> octant_chunks@.contains(v),
            decreases bound + 1 - x,
        {
            let mut y: u32 = 0;
            while y <= bound
                invariant
                    x <= bound,
                    y <= bound + 1,
                    bound <= 20001,
                    d <= 400000000,
                    forall|v: GridVector|
                        chart_member(d as int, v) ==> 0 <= v.x <= bound && 0 <= v.y <= bound && 0
                            <= v.z <= bound,
                    sorted_by_key(octant_chunks@),
                    forall|i: int, j: int|
                        0 <= i < j < octant_chunks@.len() ==> octant_chunks@[i]
                            != octant_chunks@[j],
                    forall|i: int|
                        0 <= i < octant_chunks@.len() ==> chart_member(
                            d as int,
                            #[trigger] octant_chunks@[i],
                        ) && (octant_chunks@[i].x < x || (octant_chunks@[i].x == x
                            && octant_chunks@[i].y < y)),
                    forall|v: GridVector|
                        #[trigger] chart_member(d as int, v) && (v.x < x || (v.x == x && v.y < y))
                            ==> octant_chunks@.contains(v),
                decreases bound + 1 - y,
            {
                let mut z: u32 = 0;
                while z <= bound
                    invariant
                        x <= bound,
                        y <= bound,
                        z <= bound + 1,
                        bound <= 20001,
                        d <= 400000000,
                        forall|v: GridVector|
                            chart_member(d as int, v) ==> 0 <= v.x <= bound && 0 <= v.y <= bound
                                && 0 <= v.z <= bound,
                        sorted_by_key(octant_chunks@),
                        forall|i: int, j: int|
                            0 <= i < j < octant_chunks@.len() ==> octant_chunks@[i]
                                != octant_chunks@[j],
                        forall|i: int|
                            0 <= i < octant_chunks@.len() ==> chart_member(
                                d as int,
                                #[trigger] octant_chunks@[i],
                            ) && (octant_chunks@[i].x < x || (octant_chunks@[i].x == x && (
                            octant_chunks@[i].y < y || (octant_chunks@[i].y == y
                                && octant_chunks@[i].z < z)))),
                        forall|v: GridVector|
                            #[trigger] chart_member(d as int, v) && (v.x < x || (v.x == x && (v.y
                                < y || (v.y == y && v.z < z)))) ==> octant_chunks@.contains(v),
                    decreases bound + 1 - z,
                {
                    let v = GridVector { x: x as i32, y: y as i32, z: z as i32 };
                    let mx: u32 = if x > 0 {
                        x - 1
                    } else {
                        0
                    };
                    let my: u32 = if y > 0 {
                        y - 1
                    } else {
                        0
                    };
                    let mz: u32 = if z > 0 {
                        z - 1
                    } else {
                        0
                    };
                    proof {
                        assert(mx * mx + my * my + mz * mz <= 1300000000) by (nonlinear_arith)
                            requires
                                mx <= 20001,
                                my <= 20001,
                                mz <= 20001,
                        ;
                    }
                    if x <= d && y <= d && z <= d && mx * mx + my * my + mz * mz <= d {
                        proof {
                            assert(chart_member(d as int, v));
                            assert forall|i: int| 0 <= i < octant_chunks@.len() implies {
                                let w = #[trigger] octant_chunks@[i];
                                0 <= w.x <= 20001 && 0 <= w.y <= 20001 && 0 <= w.z <= 20001
                            } by {
                                lemma_member_small(d as int, octant_chunks@[i]);
                            }
                            lemma_member_small(d as int, v);
                        }
                        let ghost before_insert = octant_chunks@;
                        insert_sorted(&mut octant_chunks, v);
                        proof {
                            assert forall|ii: int|
                                0 <= ii < octant_chunks@.len() implies chart_member(
                                d as int,
                                #[trigger] octant_chunks@[ii],
                            ) && (octant_chunks@[ii].x < x || (octant_chunks@[ii].x == x && (
                            octant_chunks@[ii].y < y || (octant_chunks@[ii].y == y
                                && octant_chunks@[ii].z < z + 1)))) by {
                                let w = octant_chunks@[ii];
                                assert(octant_chunks@.contains(w));
                                if w != v {
                                    assert(before_insert.contains(w));
                                    let k = choose|k: int|
                                        0 <= k < before_insert.len() && before_insert[k] == w;
                                }
                            }
                        }
                    } else {
                        proof {
                            assert(!chart_member(d as int, v));
                        }
                    }
                    proof {
                        assert forall|w: GridVector|
                            #[trigger] chart_member(d as int, w) && (w.x < x || (w.x == x && (w.y
                                < y || (w.y == y && w.z < z + 1)))) implies octant_chunks@.contains(
                            w,
                        ) by {
                            if w.x == x as int && w.y == y as int && w.z == z as int {
                                assert(w == v);
                            }
                        }
                    }
                    z = z + 1;
                }
                y = y + 1;
            }
            x = x + 1;
        }
        proof {
            assert forall|v: GridVector| #[trigger] chart_member(
                d as int,
                v,
            ) implies octant_chunks@.contains(v) by {
                assert(v.x <= bound);
            }
        }
        ChunkChart { view_distance, octant_chunks }
    }

    /// Recalculate the chart if the provided distance is different.
    /// Equivalent to replacing `self` with a chart newly built for that
    /// distance, while leaving the stored listing (and its allocation)
    /// untouched when the distance is unchanged.
    pub fn resize_if_needed(&mut self, view_distance: ViewDistance)
        requires
            old(self).wf(),
            view_distance.wf(),
        ensures
            final(self).wf(),
            final(self).view_distance == view_distance,
            old(self).view_distance == view_distance ==> *final(self) == *old(self),
    {
        if !(self.view_distance == view_distance) {
            *self = ChunkChart::new(view_distance);
        }
    }

    /// The chunk positions of this chart around the given origin, ordered
    /// from nearest to farthest: every octant offset is mirrored across the
    /// three coordinate planes (skipping mirrors of zero coordinates, which
    /// would repeat a position) and translated by the origin.
    pub fn chunks(&self, origin: ChunkPos) -> (r: Vec<ChunkPos>)
        requires
            self.wf(),
            -2147463646 <= origin.0.x <= 2147463646,
            -2147463646 <= origin.0.y <= 2147463646,
            -2147463646 <= origin.0.z <= 2147463646,
        ensures
            r@ == spec_chunks(self.octant_chunks@, origin),
            forall|i: int, j: int|
                0 <= i <= j < r@.len() ==> spec_chunk_distance(#[trigger] r@[i], origin)
                    <= spec_chunk_distance(#[trigger] r@[j], origin),
    {
        let mut out: Vec<ChunkPos> = Vec::new();
        let n = self.octant_chunks.len();
        let mut i: usize = 0;
        proof {
            assert(self.octant_chunks@.subrange(0, 0) =~= Seq::<GridVector>::empty());
            assert(out@ =~= spec_chunks(self.octant_chunks@.subrange(0, 0), origin));
        }
        while i < n
            invariant
                i <= n,
                n == self.octant_chunks@.len(),
                self.wf(),
                -2147463646 <= origin.0.x <= 2147463646,
                -2147463646 <= origin.0.y <= 2147463646,
                -2147463646 <= origin.0.z <= 2147463646,
                out@ == spec_chunks(self.octant_chunks@.subrange(0, i as int), origin),
                forall|k: int|
                    0 <= k < out@.len() ==> exists|m: int|
                        0 <= m < i && spec_chunk_distance(#[trigger] out@[k], origin)
                            == self.octant_chunks@[m].spec_magnitude_squared(),
                forall|k: int, m: int|
                    0 <= k < out@.len() && i <= m < n ==> spec_chunk_distance(
                        #[trigger] out@[k],
                        origin,
                    ) <= (#[trigger] self.octant_chunks@[m]).spec_magnitude_squared(),
                forall|k: int, l: int|
                    0 <= k <= l < out@.len() ==> spec_chunk_distance(#[trigger] out@[k], origin)
                        <= spec_chunk_distance(#[trigger] out@[l], origin),
            decreases n - i,
        {
            let v = self.octant_chunks[i];
            proof {
                assert(chart_member(
                    self.view_distance.squared_chunks as int,
                    self.octant_chunks@[i as int],
                ));
                lemma_member_small(self.view_distance.squared_chunks as int, v);
            }
            let ghost out_before = out@;
            let xs_neg = v.x != 0;
            let ys_neg = v.y != 0;
            let zs_neg = v.z != 0;
            let mut sx: u8 = if xs_neg {
                0
            } else {
                1
            };
            proof {
                assert(spec_mirrors_prefix(v, origin, sx as int)
                    =~= Seq::<ChunkPos>::empty());
                assert(out@ =~= out_before + spec_mirrors_prefix(v, origin, sx as int));
            }
            // Mirror order: negative before positive on each axis, x
            // outermost, z innermost.
            while sx <= 1
                invariant
                    self.wf(),
                    i < n,
                    n == self.octant_chunks@.len(),
                    v == self.octant_chunks@[i as int],
                    -2147463646 <= origin.0.x <= 2147463646,
                    -2147463646 <= origin.0.y <= 2147463646,
                    -2147463646 <= origin.0.z <= 2147463646,
                    0 <= v.x <= 20001 && 0 <= v.y <= 20001 && 0 <= v.z <= 20001,
                    xs_neg == (v.x != 0) && ys_neg == (v.y != 0) && zs_neg == (v.z != 0),
                    (v.x != 0 ==> sx == 0 || sx == 1 || sx == 2) && (v.x == 0 ==> sx == 1 || sx
                        == 2),
                    out@ == out_before + spec_mirrors_prefix(v, origin, sx as int),
                decreases 2 - sx,
            {
                let mx: i32 = if sx == 0 {
                    -v.x
                } else {
                    v.x
                };
                let mut sy: u8 = if ys_neg {
                    0
                } else {
                    1
                };
                proof {
                    assert(spec_mirrors_row_prefix(v, origin, mx as int, sy as int)
                        =~= Seq::<ChunkPos>::empty());
                    assert(out@ =~= out_before + spec_mirrors_prefix(v, origin, sx as int)
                        + spec_mirrors_row_prefix(v, origin, mx as int, sy as int));
                }
                while sy <= 1
                    invariant
                        self.wf(),
                        i < n,
                        n == self.octant_chunks@.len(),
                        v == self.octant_chunks@[i as int],
                        -2147463646 <= origin.0.x <= 2147463646,
                        -2147463646 <= origin.0.y <= 2147463646,
                        -2147463646 <= origin.0.z <= 2147463646,
                        0 <= v.x <= 20001 && 0 <= v.y <= 20001 && 0 <= v.z <= 20001,
                        sx <= 1,
                        mx == if sx == 0 {
                            -v.x as int
                        } else {
                            v.x as int
                        },
                        sx == 0 ==> v.x != 0,
                        xs_neg == (v.x != 0) && ys_neg == (v.y != 0) && zs_neg == (v.z != 0),
                        (v.y != 0 ==> sy == 0 || sy == 1 || sy == 2) && (v.y == 0 ==> sy == 1 || sy
                            == 2),
                        out@ == out_before + spec_mirrors_prefix(v, origin, sx as int)
                            + spec_mirrors_row_prefix(v, origin, mx as int, sy as int),
                    decreases 2 - sy,
                {
                    let my: i32 = if sy == 0 {
                        -v.y
                    } else {
                        v.y
                    };
                    if zs_neg {
                        out.push(
                            ChunkPos(
                                GridPoint {
                                    x: origin.0.x + mx,
                                    y: origin.0.y + my,
                                    z: origin.0.z - v.z,
                                },
                            ),
                        );
                    }
                    out.push(
                        ChunkPos(
                            GridPoint {
                                x: origin.0.x + mx,
                                y: origin.0.y + my,
                                z: origin.0.z + v.z,
                            },
                        ),
                    );
                    proof {
                        assert(out@ =~= out_before + spec_mirrors_prefix(v, origin, sx as int)
                            + spec_mirrors_row_prefix(v, origin, mx as int, sy + 1));
                    }
                    sy = sy + 1;
                }
                proof {
                    assert(spec_mirrors_prefix(v, origin, sx + 1) =~= spec_mirrors_prefix(
                        v,
                        origin,
                        sx as int,
                    ) + spec_mirrors_row_prefix(v, origin, mx as int, 2));
                    assert(out@ =~= out_before + spec_mirrors_prefix(v, origin, sx + 1));
                }
                sx = sx + 1;
            }
            proof {
                assert(spec_mirrors(v, origin) =~= spec_mirrors_prefix(v, origin, 2));
                assert(self.octant_chunks@.subrange(0, i + 1).drop_last()
                    =~= self.octant_chunks@.subrange(0, i as int));
                assert(out@ =~= spec_chunks(self.octant_chunks@.subrange(0, i + 1), origin));
                lemma_mirror_distances(v, origin);
                assert forall|k: int|
                    0 <= k < out@.len() implies exists|m: int|
                    0 <= m < i + 1 && spec_chunk_distance(#[trigger] out@[k], origin)
                        == self.octant_chunks@[m].spec_magnitude_squared() by {
                    if k < out_before.len() {
                        let m = choose|m: int|
                            0 <= m < i && spec_chunk_distance(out_before[k], origin)
                                == self.octant_chunks@[m].spec_magnitude_squared();
                        assert(out@[k] == out_before[k]);
                        assert(spec_chunk_distance(out@[k], origin)
                            == self.octant_chunks@[m].spec_magnitude_squared());
                    } else {
                        assert(spec_mirrors(v, origin).contains(out@[k]));
                        assert(spec_chunk_distance(out@[k], origin)
                            == v.spec_magnitude_squared());
                        assert(self.octant_chunks@[i as int].spec_magnitude_squared()
                            == v.spec_magnitude_squared());
                    }
                }
                assert forall|k: int, m: int|
                    0 <= k < out@.len() && i + 1 <= m < n implies spec_chunk_distance(
                    #[trigger] out@[k],
                    origin,
                ) <= (#[trigger] self.octant_chunks@[m]).spec_magnitude_squared() by {
                    let w = choose|w: int|
                        0 <= w < i + 1 && spec_chunk_distance(out@[k], origin)
                            == self.octant_chunks@[w].spec_magnitude_squared();
                    assert(key_le(self.octant_chunks@[w], self.octant_chunks@[m]));
                }
                assert forall|k: int, l: int|
                    0 <= k <= l < out@.len() implies spec_chunk_distance(#[trigger] out@[k], origin)
                    <= spec_chunk_distance(#[trigger] out@[l], origin) by {
                    if l >= out_before.len() && k < out_before.len() {
                        assert(spec_chunk_distance(out@[l], origin)
                            == v.spec_magnitude_squared());
                        assert(spec_chunk_distance(out@[k], origin)
                            <= self.octant_chunks@[i as int].spec_magnitude_squared());
                    } else if k >= out_before.len() {
                        assert(spec_chunk_distance(out@[k], origin)
                            == v.spec_magnitude_squared());
                        assert(spec_chunk_distance(out@[l], origin)
                            == v.spec_magnitude_squared());
                    }
                }
            }
            i = i + 1;
        }
        proof {
            assert(self.octant_chunks@.subrange(0, n as int) =~= self.octant_chunks@);
        }
        out
    }

    /// The chunk positions of this chart around the given origin in
    /// farthest-to-nearest order: exactly the reverse of
    /// [`ChunkChart::chunks`].
    pub fn chunks_rev(&self, origin: ChunkPos) -> (r: Vec<ChunkPos>)
        requires
            self.wf(),
            -2147463646 <= origin.0.x <= 2147463646,
            -2147463646 <= origin.0.y <= 2147463646,
            -2147463646 <= origin.0.z <= 2147463646,
        ensures
            r@ == spec_chunks(self.octant_chunks@, origin).reverse(),
    {
        let forward = self.chunks(origin);
        let mut out: Vec<ChunkPos> = Vec::new();
        let n = forward.len();
        let mut i: usize = 0;
        while i < n
            invariant
                i <= n,
                n == forward@.len(),
                out@.len() == i,
                forall|k: int| 0 <= k < i ==> out@[k] == forward@[n - 1 - k],
            decreases n - i,
        {
            out.push(forward[n - 1 - i]);
            i = i + 1;
        }
        proof {
            assert(out@ =~= forward@.reverse());
        }
        out
    }
}

/// The squared distance between a chunk position and an origin chunk.
pub open spec fn spec_chunk_distance(p: ChunkPos, origin: ChunkPos) -> int {
    let dx = p.0.x - origin.0.x;
    let dy = p.0.y - origin.0.y;
    let dz = p.0.z - origin.0.z;
    dx * dx + dy * dy + dz * dz
}

/// The mirrored images of one octant offset around an origin, in the order
/// the chart yields them: negative before positive on each axis, x
/// outermost and z innermost, with mirrors of zero coordinates skipped.
pub open spec fn spec_mirrors(v: GridVector, origin: ChunkPos) -> Seq<ChunkPos> {
    spec_mirrors_prefix(v, origin, 2)
}

/// The part of the mirror listing produced by the x-axis signs before
/// `sx_end`: sign index 0 is the negative mirror (present only when the
/// coordinate is nonzero) and 1 is the offset itself.
pub open spec fn spec_mirrors_prefix(v: GridVector, origin: ChunkPos, sx_end: int) -> Seq<ChunkPos> {
    let neg = if v.x != 0 && sx_end > 0 {
        spec_mirrors_row_prefix(v, origin, -v.x as int, 2)
    } else {
        Seq::<ChunkPos>::empty()
    };
    let pos = if sx_end > 1 {
        spec_mirrors_row_prefix(v, origin, v.x as int, 2)
    } else {
        Seq::<ChunkPos>::empty()
    };
    neg + pos
}

/// The part of one x-mirror row produced by the y-axis signs before
/// `sy_end`.
pub open spec fn spec_mirrors_row_prefix(
    v: GridVector,
    origin: ChunkPos,
    mx: int,
    sy_end: int,
) -> Seq<ChunkPos> {
    let neg = if v.y != 0 && sy_end > 0 {
        spec_mirrors_cell(v, origin, mx, -v.y as int)
    } else {
        Seq::<ChunkPos>::empty()
    };
    let pos = if sy_end > 1 {
        spec_mirrors_cell(v, origin, mx, v.y as int)
    } else {
        Seq::<ChunkPos>::empty()
    };
    neg + pos
}

/// The z-axis mirrors of one (x, y)-mirrored offset.
pub open spec fn spec_mirrors_cell(v: GridVector, origin: ChunkPos, mx: int, my: int) -> Seq<
    ChunkPos,
> {
    let neg = if v.z != 0 {
        seq![
            ChunkPos(
                GridPoint {
                    x: (origin.0.x + mx) as i32,
                    y: (origin.0.y + my) as i32,
                    z: (origin.0.z - v.z) as i32,
                },
            ),
        ]
    } else {
        Seq::<ChunkPos>::empty()
    };
    neg + seq![
        ChunkPos(
            GridPoint {
                x: (origin.0.x + mx) as i32,
                y: (origin.0.y + my) as i32,
                z: (origin.0.z + v.z) as i32,
            },
        ),
    ]
}

/// The full mirrored listing of a chart's octant offsets around an origin.
pub open spec fn spec_chunks(octant: Seq<GridVector>, origin: ChunkPos) -> Seq<ChunkPos>
    decreases octant.len(),
{
    if octant.len() == 0 {
        Seq::<ChunkPos>::empty()
    } else {
        spec_chunks(octant.drop_last(), origin) + spec_mirrors(octant.last(), origin)
    }
}

/// Chart membership at small distances keeps the coordinates small enough
/// for mirrored arithmetic.
proof fn lemma_member_small(d: int, v: GridVector)
    requires
        chart_member(d, v),
        d <= 400000000,
    ensures
        0 <= v.x <= 20001,
        0 <= v.y <= 20001,
        0 <= v.z <= 20001,
{
    assert(0 <= v.x <= 20001 && 0 <= v.y <= 20001 && 0 <= v.z <= 20001) by (nonlinear_arith)
        requires
            chart_member(d, v),
            d <= 400000000,
    ;
}

/// Coordinates of chart members are bounded by both the squared distance
/// and one past its square root.
proof fn lemma_member_coordinate_bound(d: int, limit: int, v: GridVector)
    requires
        chart_member(d, v),
        limit >= 1,
        (limit - 1) * (limit - 1) <= d,
        d < limit * limit,
    ensures
        v.x <= d && v.x <= limit,
        v.y <= d && v.y <= limit,
        v.z <= d && v.z <= limit,
{
    assert(v.x <= limit && v.y <= limit && v.z <= limit) by (nonlinear_arith)
        requires
            chart_member(d, v),
            limit >= 1,
            d < limit * limit,
    ;
}

/// Every mirrored image of an octant offset lies at that offset's squared
/// magnitude from the origin.
proof fn lemma_mirror_distances(v: GridVector, origin: ChunkPos)
    requires
        0 <= v.x <= 20001,
        0 <= v.y <= 20001,
        0 <= v.z <= 20001,
        -2147463646 <= origin.0.x <= 2147463646,
        -2147463646 <= origin.0.y <= 2147463646,
        -2147463646 <= origin.0.z <= 2147463646,
    ensures
        forall|k: int|
            0 <= k < spec_mirrors(v, origin).len() ==> spec_chunk_distance(
                #[trigger] spec_mirrors(v, origin)[k],
                origin,
            ) == v.spec_magnitude_squared(),
        forall|p: ChunkPos|
            spec_mirrors(v, origin).contains(p) ==> spec_chunk_distance(p, origin)
                == v.spec_magnitude_squared(),
{
    assert forall|k: int| 0 <= k < spec_mirrors(v, origin).len() implies spec_chunk_distance(
        #[trigger] spec_mirrors(v, origin)[k],
        origin,
    ) == v.spec_magnitude_squared() by {
        let p = spec_mirrors(v, origin)[k];
        assert((-v.x as int) * (-v.x as int) == v.x * v.x && (-v.y as int) * (-v.y as int) == v.y
            * v.y && (-v.z as int) * (-v.z as int) == v.z * v.z) by (nonlinear_arith);
    }
}

/// Insert an offset into a key-sorted vector at its key position, keeping
/// the vector sorted; the offset must be new and strictly above every
/// present offset in no position.
fn insert_sorted(octant: &mut Vec<GridVector>, v: GridVector)
    requires
        sorted_by_key(old(octant)@),
        forall|i: int, j: int| 0 <= i < j < old(octant)@.len() ==> old(octant)@[i] != old(octant)@[j],
        forall|i: int| 0 <= i < old(octant)@.len() ==> old(octant)@[i] != v,
        forall|i: int|
            0 <= i < old(octant)@.len() ==> {
                let w = #[trigger] old(octant)@[i];
                0 <= w.x <= 20001 && 0 <= w.y <= 20001 && 0 <= w.z <= 20001
            },
        0 <= v.x <= 20001 && 0 <= v.y <= 20001 && 0 <= v.z <= 20001,
    ensures
        sorted_by_key(final(octant)@),
        forall|i: int, j: int|
            0 <= i < j < final(octant)@.len() ==> final(octant)@[i] != final(octant)@[j],
        final(octant)@.len() == old(octant)@.len() + 1,
        forall|w: GridVector|
            final(octant)@.contains(w) <==> (old(octant)@.contains(w) || w == v),
{
    let n = octant.len();
    let mut j: usize = 0;
    while j < n && key_le_exec(octant[j], v)
        invariant
            j <= n,
            n == octant@.len(),
            *octant == *old(octant),
            forall|i: int|
                0 <= i < octant@.len() ==> {
                    let w = #[trigger] octant@[i];
                    0 <= w.x <= 20001 && 0 <= w.y <= 20001 && 0 <= w.z <= 20001
                },
            0 <= v.x <= 20001 && 0 <= v.y <= 20001 && 0 <= v.z <= 20001,
            forall|k: int| 0 <= k < j ==> key_le(#[trigger] octant@[k], v),
            j < n ==> j < octant@.len(),
        decreases n - j,
    {
        j = j + 1;
    }
    proof {
        if j < n {
            assert(!key_le(octant@[j as int], v));
            lemma_key_total(octant@[j as int], v);
            assert(key_le(v, octant@[j as int]));
        }
    }
    octant.insert(j, v);
    proof {
        let s = octant@;
        let pre = old(octant)@;
        assert forall|a: int, b: int| 0 <= a < b < s.len() implies key_le(
            #[trigger] s[a],
            #[trigger] s[b],
        ) by {
            if a < j && b < j {
            } else if a == j as int {
                assert(s[a] == v);
                assert(s[b] == pre[b - 1]);
                assert(key_le(v, pre[j as int]));
                if b - 1 > j {
                    assert(key_le(pre[j as int], pre[b - 1]));
                    lemma_key_trans(v, pre[j as int], pre[b - 1]);
                }
            } else if b == j as int {
                assert(s[a] == pre[a]);
                assert(s[b] == v);
            } else if a < j && b > j {
                assert(s[a] == pre[a]);
                assert(s[b] == pre[b - 1]);
                if b - 1 == j {
                    assert(key_le(pre[a], v));
                    assert(key_le(v, pre[j as int]));
                    lemma_key_trans(pre[a], v, pre[j as int]);
                    assert(s[b] == pre[b - 1]);
                } else {
                    assert(key_le(pre[a], pre[b - 1]));
                }
            } else {
                assert(s[a] == pre[a - 1]);
                assert(s[b] == pre[b - 1]);
            }
        }
        assert forall|a: int, b: int| 0 <= a < b < s.len() implies s[a] != s[b] by {
            let pa = if a < j {
                pre[a]
            } else if a == j as int {
                v
            } else {
                pre[a - 1]
            };
            let pb = if b < j {
                pre[b]
            } else if b == j as int {
                v
            } else {
                pre[b - 1]
            };
            assert(s[a] == pa && s[b] == pb);
        }
        assert forall|w: GridVector| s.contains(w) implies (pre.contains(w) || w == v) by {
            let k = choose|k: int| 0 <= k < s.len() && s[k] == w;
            if k < j {
                assert(pre[k] == w);
            } else if k > j {
                assert(pre[k - 1] == w);
            }
        }
        assert forall|w: GridVector| pre.contains(w) || w == v implies s.contains(w) by {
            if w == v {
                assert(s[j as int] == w);
            } else {
                let k = choose|k: int| 0 <= k < pre.len() && pre[k] == w;
                if k < j {
                    assert(s[k] == w);
                } else {
                    assert(s[k + 1] == w);
                }
            }
        }
    }
}

/// The chart key comparison, executably.
fn key_le_exec(a: GridVector, b: GridVector) -> (r: bool)
    requires
        -26000 <= a.x <= 26000 && -26000 <= a.y <= 26000 && -26000 <= a.z <= 26000,
        -26000 <= b.x <= 26000 && -26000 <= b.y <= 26000 && -26000 <= b.z <= 26000,
    ensures
        r == key_le(a, b),
{
    let ma = int_magnitude_squared(a);
    let mb = int_magnitude_squared(b);
    if ma != mb {
        ma < mb
    } else if a.x != b.x {
        a.x < b.x
    } else if a.y != b.y {
        a.y < b.y
    } else {
        a.z <= b.z
    }
}

/// Integer square root: the largest `r` with `r * r <= n`.
fn isqrt(n: u32) -> (r: u32)
    requires
        n <= 400000000,
    ensures
        r * r <= n,
        n < (r + 1) * (r + 1),
        r <= 20000,
{
    let mut r: u32 = 0;
    loop
        invariant_except_break
            n <= 400000000,
            r * r <= n,
            r <= 20000,
        ensures
            r * r <= n,
            n < (r + 1) * (r + 1),
            r <= 20000,
        decreases 20001 - r,
    {
        let next: u32 = r + 1;
        proof {
            assert((next as u64) * (next as u64) <= 400080001) by (nonlinear_arith)
                requires
                    next <= 20001,
            ;
        }
        let square: u64 = (next as u64) * (next as u64);
        if square > n as u64 {
            break ;
        }
        proof {
            assert(next * next <= 400000000 ==> next <= 20000) by (nonlinear_arith);
        }
        r = next;
    }
    r
}

} // verus!
