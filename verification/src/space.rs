//! The world store: a bounded grid of cells, each referencing a deduplicated
//! block definition through a compacting interning table, with a parallel
//! array of per-cell light values kept consistent by an incremental update
//! queue.

use vstd::prelude::*;

use crate::block::{
    air_evaluated, air_snapshot, spec_evaluate, Block, BlockSnapshot, EvalBlockError,
    EvaluatedBlock,
};
use crate::grid::{lemma_index_in_range, lemma_index_injective, lemma_volume_bounds, Grid};
use crate::light::{
    lemma_queue_extended_max_trans, queue_extended_max, spec_opaque_light,
    spec_uninitialized_light, LightStatus, LightUpdateQueue, LightUpdateRequest,
    LightUpdatesInfo, PackedLight, Rgb,
};
use crate::math::{GridPoint, GridVector};

verus! {

/// Number used to identify distinct blocks within a [`Space`].
pub type BlockIndex = u16;

/// Information about the interpretation of a block index: the block value
/// itself, how many cells reference it, and its cached evaluation.
#[derive(Debug)]
pub struct SpaceBlockData {
    /// The block itself.
    pub block: Block,
    /// Number of uses of this block in the space.
    pub count: usize,
    /// The cached evaluation of `block`.
    pub evaluated: EvaluatedBlock,
}

/// The mathematical value of a [`SpaceBlockData`] entry.
pub struct BlockDataSnapshot {
    /// The block value this entry interns.
    pub block: BlockSnapshot,
    /// The number of cells referencing this entry.
    pub count: nat,
    /// The cached result of evaluating `block`.
    pub evaluated: EvaluatedBlock,
}

impl View for SpaceBlockData {
    type V = BlockDataSnapshot;

    open spec fn view(&self) -> BlockDataSnapshot {
        BlockDataSnapshot {
            block: self.block@,
            count: self.count as nat,
            evaluated: self.evaluated,
        }
    }
}

impl SpaceBlockData {
    /// Returns the [`Block`] this data is about.
    pub fn block(&self) -> (r: &Block)
        ensures
            r@ == self@.block,
    {
        &self.block
    }

    /// Returns the cached [`EvaluatedBlock`] representation of the block.
    pub fn evaluated(&self) -> (r: &EvaluatedBlock)
        ensures
            *r == self@.evaluated,
    {
        &self.evaluated
    }

    /// The number of cells that reference this entry.
    pub fn count(&self) -> (r: usize)
        ensures
            r == self@.count,
    {
        self.count
    }
}

/// Method used to compute the illumination of individual cells in a
/// [`Space`].
#[derive(Clone, Copy, Debug, PartialEq, Eq, Hash, Structural)]
pub enum LightPhysics {
    /// No light. All surface colors are taken exactly as displayed colors.
    Disabled,
    /// Raycast-based light propagation.
    Rays {
        /// The maximum distance a simulated light ray will travel; blocks
        /// farther than that distance apart never influence each other.
        maximum_distance: u16,
    },
}

impl Default for LightPhysics {
    /// The default light physics: rays with a moderate maximum distance.
    fn default() -> (r: Self)
        ensures
            r == (LightPhysics::Rays { maximum_distance: 30u16 }),
    {
        LightPhysics::Rays { maximum_distance: 30 }
    }
}

/// The global characteristics of a [`Space`], more or less independent of
/// location within the grid.
#[derive(Clone, Copy, Debug, PartialEq, Eq, Hash, Structural)]
pub struct SpacePhysics {
    /// Gravity vector for moving objects, in thousandths of a cube per
    /// second squared; consumed by motion simulation outside this store.
    pub gravity: GridVector,
    /// Color of light arriving from outside the space, used for light
    /// calculation.
    pub sky_color: Rgb,
    /// Method used to compute the illumination of individual cells.
    pub light: LightPhysics,
}

impl SpacePhysics {
    /// Recommended defaults for spaces that are going to define a block's
    /// voxels: no light computation, neutral gray sky.
    pub fn default_for_block() -> (r: Self)
        ensures
            r == (SpacePhysics {
                gravity: GridVector { x: 0, y: 0, z: 0 },
                sky_color: Rgb { red: 128, green: 128, blue: 128 },
                light: LightPhysics::Disabled,
            }),
    {
        SpacePhysics {
            gravity: GridVector { x: 0, y: 0, z: 0 },
            sky_color: Rgb { red: 128, green: 128, blue: 128 },
            light: LightPhysics::Disabled,
        }
    }
}

impl Default for SpacePhysics {
    /// The default physics: a bright daytime sky and ray-based light.
    fn default() -> (r: Self)
        ensures
            r == (SpacePhysics {
                gravity: GridVector { x: 0, y: -20000i32, z: 0 },
                sky_color: Rgb { red: 201, green: 222, blue: 255 },
                light: LightPhysics::Rays { maximum_distance: 30u16 },
            }),
    {
        SpacePhysics {
            gravity: GridVector { x: 0, y: -20000, z: 0 },
            sky_color: Rgb { red: 201, green: 222, blue: 255 },
            light: LightPhysics::Rays { maximum_distance: 30 },
        }
    }
}

/// Ways that [`Space::set`] can fail to make a change.
///
/// Note that "already contained the given block" is considered a success.
#[derive(Clone, Copy, Debug, PartialEq, Eq, Structural)]
pub enum SetCubeError {
    /// The given cube or region is out of the bounds of this space.
    OutOfBounds {
        /// The region of the failed modification attempt.
        modification: Grid,
        /// The bounds of the space.
        space_bounds: Grid,
    },
    /// Evaluation failed on a new block type.
    EvalBlock(EvalBlockError),
    /// More distinct blocks were added than currently supported.
    TooManyBlocks,
}

/// Description of a change to a [`Space`], recorded in its change log for
/// listeners.
#[derive(Clone, Copy, Debug, PartialEq, Eq, Structural)]
pub enum SpaceChange {
    /// The block at the given location was replaced.
    Block(GridPoint),
    /// The light level value at the given location changed.
    Lighting(GridPoint),
    /// The given block index number was reassigned and now refers to a
    /// different block value.
    Number(BlockIndex),
    /// The definition of the block referred to by the given block index
    /// number was changed; the result of `get_evaluated` may differ. This
    /// kind is reserved for collaborators that re-evaluate block
    /// definitions asynchronously; while block definitions are immutable
    /// values, the store itself never records it.
    BlockValue(BlockIndex),
    /// Equivalent to [`SpaceChange::Block`] for every cube and
    /// [`SpaceChange::Number`] for every index.
    EveryBlock,
}

/// Performance data returned by [`Space::step`].
#[derive(Clone, Copy, Debug, Default, PartialEq, Eq, Hash, Structural)]
pub struct SpaceStepInfo {
    /// Number of spaces whose updates were aggregated into this value.
    pub spaces: usize,
    /// Statistics of the light updates performed.
    pub light: LightUpdatesInfo,
}

/// The number of entries of `s` that equal `v`.
pub open spec fn occurrences(s: Seq<BlockIndex>, v: BlockIndex) -> nat
    decreases s.len(),
{
    if s.len() == 0 {
        0
    } else {
        occurrences(s.drop_last(), v) + if s.last() == v {
            1nat
        } else {
            0nat
        }
    }
}

/// Occurrence counts never exceed the sequence length.
pub proof fn lemma_occurrences_le_len(s: Seq<BlockIndex>, v: BlockIndex)
    ensures
        occurrences(s, v) <= s.len(),
    decreases s.len(),
{
    if s.len() > 0 {
        lemma_occurrences_le_len(s.drop_last(), v);
    }
}

/// An entry equal to `v` witnesses at least one occurrence.
pub proof fn lemma_occurrences_positive(s: Seq<BlockIndex>, v: BlockIndex, k: int)
    requires
        0 <= k < s.len(),
        s[k] == v,
    ensures
        occurrences(s, v) >= 1,
    decreases s.len(),
{
    if k == s.len() - 1 {
    } else {
        lemma_occurrences_positive(s.drop_last(), v, k);
    }
}

/// A value with no occurrences appears nowhere.
pub proof fn lemma_occurrences_zero(s: Seq<BlockIndex>, v: BlockIndex)
    requires
        occurrences(s, v) == 0,
    ensures
        forall|k: int| 0 <= k < s.len() ==> s[k] != v,
{
    assert forall|k: int| 0 <= k < s.len() implies s[k] != v by {
        if s[k] == v {
            lemma_occurrences_positive(s, v, k);
        }
    }
}

/// A value appearing nowhere has no occurrences.
pub proof fn lemma_occurrences_none(s: Seq<BlockIndex>, v: BlockIndex)
    requires
        forall|k: int| 0 <= k < s.len() ==> s[k] != v,
    ensures
        occurrences(s, v) == 0,
    decreases s.len(),
{
    if s.len() > 0 {
        lemma_occurrences_none(s.drop_last(), v);
    }
}

/// With exactly one occurrence, two witnesses must be the same position.
pub proof fn lemma_occurrences_unique(s: Seq<BlockIndex>, v: BlockIndex, i: int, j: int)
    requires
        occurrences(s, v) == 1,
        0 <= i < s.len(),
        0 <= j < s.len(),
        s[i] == v,
        s[j] == v,
    ensures
        i == j,
    decreases s.len(),
{
    if i != j {
        let last = s.len() - 1;
        if i == last || j == last {
            let other = if i == last {
                j
            } else {
                i
            };
            assert(s.drop_last()[other] == v);
            lemma_occurrences_positive(s.drop_last(), v, other);
        } else {
            if s.last() == v {
                lemma_occurrences_positive(s.drop_last(), v, i);
            } else {
                lemma_occurrences_unique(s.drop_last(), v, i, j);
            }
        }
    }
}

/// An entry holding another value keeps the count strictly below the
/// length.
pub proof fn lemma_occurrences_lt_len(s: Seq<BlockIndex>, v: BlockIndex, k: int)
    requires
        0 <= k < s.len(),
        s[k] != v,
    ensures
        occurrences(s, v) < s.len(),
    decreases s.len(),
{
    if k == s.len() - 1 {
        lemma_occurrences_le_len(s.drop_last(), v);
    } else {
        lemma_occurrences_lt_len(s.drop_last(), v, k);
    }
}

/// How one update to the contents array changes every occurrence count.
pub proof fn lemma_occurrences_update(s: Seq<BlockIndex>, k: int, nv: BlockIndex, v: BlockIndex)
    requires
        0 <= k < s.len(),
    ensures
        occurrences(s.update(k, nv), v) == occurrences(s, v) - (if s[k] == v {
            1int
        } else {
            0int
        }) + (if nv == v {
            1int
        } else {
            0int
        }),
    decreases s.len(),
{
    let t = s.update(k, nv);
    if k == s.len() - 1 {
        assert(t.drop_last() =~= s.drop_last());
    } else {
        assert(t.drop_last() =~= s.drop_last().update(k, nv));
        lemma_occurrences_update(s.drop_last(), k, nv, v);
    }
}

/// Occurrence counts in a constant sequence.
pub proof fn lemma_occurrences_constant(n: nat, c: BlockIndex, v: BlockIndex)
    ensures
        v == c ==> occurrences(Seq::new(n, |i: int| c), v) == n,
        v != c ==> occurrences(Seq::new(n, |i: int| c), v) == 0,
    decreases n,
{
    let s = Seq::new(n, |i: int| c);
    if n > 0 {
        lemma_occurrences_constant((n - 1) as nat, c, v);
        assert(s.drop_last() =~= Seq::new((n - 1) as nat, |i: int| c));
    }
}

/// Container for blocks arranged in three-dimensional space, with their
/// per-cell lighting. The main world data structure.
///
/// The fields are public so that the open specifications below can speak of
/// them; mutate only through the methods, which preserve [`Space::wf`].
#[derive(Debug)]
pub struct Space {
    /// The bounds of the space.
    pub grid: Grid,
    /// Lookup from interned indices (used in `contents`) to data about the
    /// block they denote. A `count` of zero marks a reusable slot holding the
    /// canonical empty block.
    pub block_data: Vec<SpaceBlockData>,
    /// The blocks in the space, stored compactly: coordinates are
    /// transformed to indices by [`Grid::index`], and each element is an
    /// index into `block_data`.
    pub contents: Vec<BlockIndex>,
    /// Parallel array to `contents` for lighting data; empty when
    /// `physics.light` is [`LightPhysics::None`].
    pub lighting: Vec<PackedLight>,
    /// Queue of cells whose light values await recomputation.
    pub light_update_queue: LightUpdateQueue,
    /// Global characteristics such as the behavior of light.
    pub physics: SpacePhysics,
    /// A copy of `physics.sky_color` in the packed representation.
    pub packed_sky_color: Rgb,
    /// Change events not yet handed to listeners; see
    /// [`Space::drain_changes`].
    pub notifications: Vec<SpaceChange>,
}

impl Space {
    /// The number of cells in the space.
    pub open spec fn spec_volume(self) -> int {
        self.grid.spec_volume()
    }

    /// The maximum ray length of the current light physics (zero when light
    /// is disabled).
    pub open spec fn light_range(self) -> int {
        match self.physics.light {
            LightPhysics::Disabled => 0,
            LightPhysics::Rays { maximum_distance } => maximum_distance as int,
        }
    }

    /// The block value stored at flattened index `k`.
    pub open spec fn block_at_flat(self, k: int) -> BlockSnapshot {
        self.block_data@[self.contents@[k] as int]@.block
    }

    /// The block value at a cube, with the canonical empty block outside the
    /// grid.
    pub open spec fn spec_block_at(self, cube: GridPoint) -> BlockSnapshot {
        if self.grid.spec_contains(cube) {
            self.block_at_flat(self.grid.spec_index_of(cube))
        } else {
            air_snapshot()
        }
    }

    /// Whether the cell at in-bounds cube `cube` is occupied by a
    /// light-blocking block.
    pub open spec fn spec_opaque_at(self, cube: GridPoint) -> bool {
        self.block_data@[self.contents@[self.grid.spec_index_of(cube)] as int]@.evaluated.opaque
    }

    /// The block-table part of the invariant: every cell's index is live,
    /// every entry's count equals the number of cells referencing it, live
    /// entries hold pairwise distinct blocks, freed entries are reset to the
    /// canonical empty block, and every cached evaluation is the evaluation
    /// of its block.
    pub open spec fn table_wf(self) -> bool {
        &&& self.grid.wf()
        &&& self.contents@.len() == self.spec_volume()
        &&& 1 <= self.block_data@.len() <= u16::MAX
        &&& forall|k: int|
            0 <= k < self.contents@.len() ==> (#[trigger] self.contents@[k]) < self.block_data@.len()
        &&& forall|i: int|
            0 <= i < self.block_data@.len() ==> (#[trigger] self.block_data@[i]@.count)
                == occurrences(self.contents@, i as BlockIndex)
        &&& forall|i: int, j: int|
            0 <= i < j < self.block_data@.len() && self.block_data@[i]@.count > 0
                && self.block_data@[j]@.count > 0 ==> self.block_data@[i]@.block
                != self.block_data@[j]@.block
        &&& forall|i: int|
            0 <= i < self.block_data@.len() && (#[trigger] self.block_data@[i]@.count) == 0
                ==> self.block_data@[i]@.block == air_snapshot() && self.block_data@[i]@.evaluated
                == air_evaluated()
        &&& forall|i: int|
            0 <= i < self.block_data@.len() ==> spec_evaluate(#[trigger] self.block_data@[i]@.block)
                == Ok::<EvaluatedBlock, EvalBlockError>(self.block_data@[i]@.evaluated)
    }

    /// The lighting part of the invariant: the lighting array parallels the
    /// contents array exactly when light is enabled, the update queue names
    /// each in-bounds cell at most once, and every cell whose stored light
    /// value is not the one the ray kernel would derive from the current
    /// contents is queued for recomputation.
    pub open spec fn light_wf(self) -> bool {
        &&& self.packed_sky_color == self.physics.sky_color
        &&& self.lighting@.len() == (match self.physics.light {
            LightPhysics::Disabled => 0int,
            LightPhysics::Rays { .. } => self.spec_volume(),
        })
        &&& self.light_update_queue.wf()
        &&& forall|i: int|
            0 <= i < self.light_update_queue@.len() ==> self.grid.spec_contains(
                (#[trigger] self.light_update_queue@[i]).cube,
            )
        &&& forall|i: int|
            0 <= i < self.light_update_queue@.len() ==> (#[trigger] self.light_update_queue@[i]).priority >= 1
        &&& self.physics.light is Disabled ==> self.light_update_queue@.len() == 0
        &&& self.physics.light is Rays ==> forall|cube: GridPoint|
            #[trigger] self.grid.spec_contains(cube) ==> self.light_update_queue.spec_contains(cube)
                || self.lighting@[self.grid.spec_index_of(cube)] == self.spec_light_of(cube)
    }

    /// The whole invariant. Every reachable state of a `Space` satisfies
    /// this; it is the refcount invariant of the block table combined with
    /// the consistency of the lighting data.
    pub open spec fn wf(self) -> bool {
        self.table_wf() && self.light_wf()
    }

    /// Whether a light ray cast from `cube` (exclusive) in direction `d`
    /// escapes the grid within `remaining` steps before striking an opaque
    /// cell. An escaping ray accumulates the sky color; an obstructed or
    /// exhausted ray accumulates darkness.
    pub open spec fn ray_reaches_sky(
        self,
        x: int,
        y: int,
        z: int,
        dx: int,
        dy: int,
        dz: int,
        remaining: nat,
    ) -> bool
        decreases remaining,
    {
        if remaining == 0 {
            false
        } else {
            let nx = x + dx;
            let ny = y + dy;
            let nz = z + dz;
            if !self.spec_contains_xyz(nx, ny, nz) {
                true
            } else if self.spec_opaque_xyz(nx, ny, nz) {
                false
            } else {
                self.ray_reaches_sky(nx, ny, nz, dx, dy, dz, (remaining - 1) as nat)
            }
        }
    }

    /// Containment of unbounded coordinates in the grid.
    pub open spec fn spec_contains_xyz(self, x: int, y: int, z: int) -> bool {
        &&& self.grid.lower().x <= x < self.grid.lower().x + self.grid.size().x
        &&& self.grid.lower().y <= y < self.grid.lower().y + self.grid.size().y
        &&& self.grid.lower().z <= z < self.grid.lower().z + self.grid.size().z
    }

    /// Opacity of the cell at unbounded in-grid coordinates.
    pub open spec fn spec_opaque_xyz(self, x: int, y: int, z: int) -> bool {
        self.spec_opaque_at(GridPoint { x: x as i32, y: y as i32, z: z as i32 })
    }

    /// How many of the six axis-aligned sample rays from `cube` reach the
    /// sky.
    pub open spec fn spec_sky_ray_count(self, cube: GridPoint) -> int {
        let x = cube.x as int;
        let y = cube.y as int;
        let z = cube.z as int;
        let d = self.light_range() as nat;
        (if self.ray_reaches_sky(x, y, z, -1, 0, 0, d) {
            1int
        } else {
            0int
        }) + (if self.ray_reaches_sky(x, y, z, 1, 0, 0, d) {
            1int
        } else {
            0int
        }) + (if self.ray_reaches_sky(x, y, z, 0, -1, 0, d) {
            1int
        } else {
            0int
        }) + (if self.ray_reaches_sky(x, y, z, 0, 1, 0, d) {
            1int
        } else {
            0int
        }) + (if self.ray_reaches_sky(x, y, z, 0, 0, -1, d) {
            1int
        } else {
            0int
        }) + (if self.ray_reaches_sky(x, y, z, 0, 0, 1, d) {
            1int
        } else {
            0int
        })
    }

    /// The light value the ray kernel derives for an in-bounds cube from the
    /// current contents: the constant dark value inside opaque blocks, and
    /// otherwise the sky color scaled by the fraction of the six axis sample
    /// rays that escape to the sky.
    pub open spec fn spec_light_of(self, cube: GridPoint) -> PackedLight {
        if self.spec_opaque_at(cube) {
            spec_opaque_light()
        } else {
            let n = self.spec_sky_ray_count(cube);
            PackedLight {
                status: LightStatus::Valued,
                value: Rgb {
                    red: ((n * self.physics.sky_color.red) / 6) as u8,
                    green: ((n * self.physics.sky_color.green) / 6) as u8,
                    blue: ((n * self.physics.sky_color.blue) / 6) as u8,
                },
            }
        }
    }
}


/// How many steps an axis ray from in-grid coordinates needs to leave the
/// grid, along the single nonzero axis of the unit direction.
pub open spec fn exit_steps(
    g: Grid,
    x: int,
    y: int,
    z: int,
    dx: int,
    dy: int,
    dz: int,
) -> int {
    if dx == 1 {
        g.lower().x + g.size().x - x
    } else if dx == -1 {
        x + 1 - g.lower().x
    } else if dy == 1 {
        g.lower().y + g.size().y - y
    } else if dy == -1 {
        y + 1 - g.lower().y
    } else if dz == 1 {
        g.lower().z + g.size().z - z
    } else {
        z + 1 - g.lower().z
    }
}

/// In a space with no opaque cell, an axis ray reaches the sky exactly when
/// the grid boundary lies within its range.
pub proof fn lemma_ray_in_clear_space(
    s: Space,
    x: int,
    y: int,
    z: int,
    dx: int,
    dy: int,
    dz: int,
    remaining: nat,
)
    requires
        s.grid.wf(),
        s.spec_contains_xyz(x, y, z),
        dx * dx + dy * dy + dz * dz == 1,
        -1 <= dx <= 1 && -1 <= dy <= 1 && -1 <= dz <= 1,
        forall|c: GridPoint| s.grid.spec_contains(c) ==> !(#[trigger] s.spec_opaque_at(c)),
    ensures
        s.ray_reaches_sky(x, y, z, dx, dy, dz, remaining) == (exit_steps(s.grid, x, y, z, dx, dy, dz)
            <= remaining),
    decreases remaining,
{
    if dx != 0 {
        assert(dy == 0 && dz == 0) by (nonlinear_arith)
            requires
                dx * dx + dy * dy + dz * dz == 1,
                dx == 1 || dx == -1,
        ;
    } else if dy != 0 {
        assert(dz == 0) by (nonlinear_arith)
            requires
                dx == 0,
                dx * dx + dy * dy + dz * dz == 1,
                dy == 1 || dy == -1,
        ;
    }
    if remaining > 0 {
        let nx = x + dx;
        let ny = y + dy;
        let nz = z + dz;
        if !s.spec_contains_xyz(nx, ny, nz) {
            assert(exit_steps(s.grid, x, y, z, dx, dy, dz) == 1);
        } else {
            let c = GridPoint { x: nx as i32, y: ny as i32, z: nz as i32 };
            assert(c.x == nx && c.y == ny && c.z == nz);
            assert(s.grid.spec_contains(c));
            assert(!s.spec_opaque_xyz(nx, ny, nz));
            lemma_ray_in_clear_space(s, nx, ny, nz, dx, dy, dz, (remaining - 1) as nat);
            assert(exit_steps(s.grid, nx, ny, nz, dx, dy, dz) == exit_steps(
                s.grid,
                x,
                y,
                z,
                dx,
                dy,
                dz,
            ) - 1);
        }
    } else {
        assert(exit_steps(s.grid, x, y, z, dx, dy, dz) >= 1);
    }
}

/// Two spaces over the same grid and physics whose cells agree on opacity
/// agree on whether any ray reaches the sky.
pub proof fn lemma_ray_congruent(
    a: Space,
    b: Space,
    x: int,
    y: int,
    z: int,
    dx: int,
    dy: int,
    dz: int,
    remaining: nat,
)
    requires
        a.grid.wf(),
        a.grid == b.grid,
        forall|c: GridPoint|
            a.grid.spec_contains(c) ==> #[trigger] a.spec_opaque_at(c) == b.spec_opaque_at(c),
    ensures
        a.ray_reaches_sky(x, y, z, dx, dy, dz, remaining) == b.ray_reaches_sky(
            x,
            y,
            z,
            dx,
            dy,
            dz,
            remaining,
        ),
    decreases remaining,
{
    if remaining > 0 {
        let nx = x + dx;
        let ny = y + dy;
        let nz = z + dz;
        if a.spec_contains_xyz(nx, ny, nz) {
            let c = GridPoint { x: nx as i32, y: ny as i32, z: nz as i32 };
            assert(c.x == nx && c.y == ny && c.z == nz);
            assert(a.grid.spec_contains(c));
            assert(a.spec_opaque_at(c) == b.spec_opaque_at(c));
            if !a.spec_opaque_xyz(nx, ny, nz) {
                lemma_ray_congruent(a, b, nx, ny, nz, dx, dy, dz, (remaining - 1) as nat);
            }
        }
    }
}

/// Two spaces over the same grid and physics whose cells agree on opacity
/// assign every cube the same kernel light value.
pub proof fn lemma_light_congruent(a: Space, b: Space, cube: GridPoint)
    requires
        a.grid.wf(),
        a.grid == b.grid,
        a.physics == b.physics,
        a.grid.spec_contains(cube),
        forall|c: GridPoint|
            a.grid.spec_contains(c) ==> #[trigger] a.spec_opaque_at(c) == b.spec_opaque_at(c),
    ensures
        a.spec_light_of(cube) == b.spec_light_of(cube),
{
    let x = cube.x as int;
    let y = cube.y as int;
    let z = cube.z as int;
    let d = a.light_range() as nat;
    lemma_ray_congruent(a, b, x, y, z, -1, 0, 0, d);
    lemma_ray_congruent(a, b, x, y, z, 1, 0, 0, d);
    lemma_ray_congruent(a, b, x, y, z, 0, -1, 0, d);
    lemma_ray_congruent(a, b, x, y, z, 0, 1, 0, d);
    lemma_ray_congruent(a, b, x, y, z, 0, 0, -1, d);
    lemma_ray_congruent(a, b, x, y, z, 0, 0, 1, d);
}

/// A ray that never passes through the one cube where two spaces differ in
/// opacity reaches the sky in one exactly when it does in the other.
pub proof fn lemma_ray_congruent_except(
    a: Space,
    b: Space,
    p: GridPoint,
    x: int,
    y: int,
    z: int,
    dx: int,
    dy: int,
    dz: int,
    remaining: nat,
)
    requires
        a.grid.wf(),
        a.grid == b.grid,
        forall|c: GridPoint|
            a.grid.spec_contains(c) && c != p ==> #[trigger] a.spec_opaque_at(c)
                == b.spec_opaque_at(c),
        forall|k: int|
            1 <= k <= remaining ==> !(x + #[trigger] (k * dx) == p.x && y + k * dy == p.y && z + k
                * dz == p.z),
    ensures
        a.ray_reaches_sky(x, y, z, dx, dy, dz, remaining) == b.ray_reaches_sky(
            x,
            y,
            z,
            dx,
            dy,
            dz,
            remaining,
        ),
    decreases remaining,
{
    if remaining > 0 {
        let nx = x + dx;
        let ny = y + dy;
        let nz = z + dz;
        assert(!(x + 1 * dx == p.x && y + 1 * dy == p.y && z + 1 * dz == p.z));
        if a.spec_contains_xyz(nx, ny, nz) {
            let c = GridPoint { x: nx as i32, y: ny as i32, z: nz as i32 };
            assert(c.x == nx && c.y == ny && c.z == nz);
            assert(a.grid.spec_contains(c));
            assert(c != p);
            assert(a.spec_opaque_at(c) == b.spec_opaque_at(c));
            if !a.spec_opaque_xyz(nx, ny, nz) {
                assert forall|k: int|
                    1 <= k <= remaining - 1 implies !(nx + #[trigger] (k * dx) == p.x && ny + k
                    * dy == p.y && nz + k * dz == p.z) by {
                    assert((k + 1) * dx == k * dx + dx && (k + 1) * dy == k * dy + dy && (k + 1)
                        * dz == k * dz + dz) by (nonlinear_arith);
                    assert(1 <= k + 1 <= remaining);
                    assert(!(x + (k + 1) * dx == p.x && y + (k + 1) * dy == p.y && z + (k + 1) * dz
                        == p.z));
                }
                lemma_ray_congruent_except(a, b, p, nx, ny, nz, dx, dy, dz, (remaining - 1) as nat);
            }
        }
    }
}

/// When two spaces differ in opacity only at `p`, every cube that is not
/// within axis-ray distance of `p` keeps its kernel light value.
pub proof fn lemma_light_congruent_except(a: Space, b: Space, p: GridPoint, cube: GridPoint)
    requires
        a.grid.wf(),
        a.grid == b.grid,
        a.physics == b.physics,
        a.grid.spec_contains(cube),
        cube != p,
        forall|c: GridPoint|
            a.grid.spec_contains(c) && c != p ==> #[trigger] a.spec_opaque_at(c)
                == b.spec_opaque_at(c),
        !on_axis_within(cube, p, a.light_range()),
    ensures
        a.spec_light_of(cube) == b.spec_light_of(cube),
{
    let x = cube.x as int;
    let y = cube.y as int;
    let z = cube.z as int;
    let d = a.light_range() as nat;
    lemma_ray_congruent_except(a, b, p, x, y, z, -1, 0, 0, d);
    lemma_ray_congruent_except(a, b, p, x, y, z, 1, 0, 0, d);
    lemma_ray_congruent_except(a, b, p, x, y, z, 0, -1, 0, d);
    lemma_ray_congruent_except(a, b, p, x, y, z, 0, 1, 0, d);
    lemma_ray_congruent_except(a, b, p, x, y, z, 0, 0, -1, d);
    lemma_ray_congruent_except(a, b, p, x, y, z, 0, 0, 1, d);
}

/// The number of steps from `cube` to `q` along unit direction `d`, read
/// off by projecting the displacement onto the direction.
pub open spec fn ray_step(cube: GridPoint, q: GridPoint, dx: int, dy: int, dz: int) -> int {
    (q.x - cube.x) * dx + (q.y - cube.y) * dy + (q.z - cube.z) * dz
}

/// Whether `q` lies on the ray from `cube` in unit direction `d`, between
/// one and `range` steps away.
pub open spec fn on_ray(
    cube: GridPoint,
    q: GridPoint,
    dx: int,
    dy: int,
    dz: int,
    range: int,
) -> bool {
    let k = ray_step(cube, q, dx, dy, dz);
    &&& 1 <= k <= range
    &&& q.x == cube.x + k * dx
    &&& q.y == cube.y + k * dy
    &&& q.z == cube.z + k * dz
}

/// Whether `q` lies on one of the six axis rays from `cube`, between one and
/// `range` steps away: the two points differ in exactly one coordinate, by at
/// most `range`. The relation is symmetric.
pub open spec fn on_axis_within(cube: GridPoint, q: GridPoint, range: int) -> bool {
    ||| (q.y == cube.y && q.z == cube.z && q.x != cube.x && cube.x - range <= q.x <= cube.x
        + range)
    ||| (q.x == cube.x && q.z == cube.z && q.y != cube.y && cube.y - range <= q.y <= cube.y
        + range)
    ||| (q.x == cube.x && q.y == cube.y && q.z != cube.z && cube.z - range <= q.z <= cube.z
        + range)
}

impl Space {
    /// Enqueue every cell of the grid for light recomputation, in flattened
    /// index order. The queue must start empty.
    fn enqueue_all_cells(&mut self)
        requires
            old(self).grid.wf(),
            old(self).light_update_queue@.len() == 0,
        ensures
            final(self).grid == old(self).grid,
            final(self).block_data == old(self).block_data,
            final(self).contents == old(self).contents,
            final(self).lighting == old(self).lighting,
            final(self).physics == old(self).physics,
            final(self).packed_sky_color == old(self).packed_sky_color,
            final(self).notifications == old(self).notifications,
            final(self).light_update_queue.wf(),
            forall|c: GridPoint|
                final(self).grid.spec_contains(c) ==> final(self).light_update_queue.spec_contains(
                    c,
                ),
            forall|i: int|
                0 <= i < final(self).light_update_queue@.len() ==> final(self).grid.spec_contains(
                    (#[trigger] final(self).light_update_queue@[i]).cube,
                ),
            forall|i: int|
                0 <= i < final(self).light_update_queue@.len() ==> (#[trigger] final(self).light_update_queue@[i]).priority == 255,
            final(self).light_update_queue@.len() == old(self).grid.spec_volume(),
    {
        let lx = self.grid.lower_bounds().x;
        let ly = self.grid.lower_bounds().y;
        let lz = self.grid.lower_bounds().z;
        let sx = self.grid.sizes().x;
        let sy = self.grid.sizes().y;
        let sz = self.grid.sizes().z;
        let ghost g = self.grid;
        let mut x = lx;
        while x != lx + sx
            invariant
                lx == g.lower().x && ly == g.lower().y && lz == g.lower().z,
                sx == g.size().x && sy == g.size().y && sz == g.size().z,
                g.wf(),
                self.grid == g,
                self.block_data == old(self).block_data,
                self.contents == old(self).contents,
                self.lighting == old(self).lighting,
                self.physics == old(self).physics,
                self.packed_sky_color == old(self).packed_sky_color,
                self.notifications == old(self).notifications,
                lx <= x <= lx + sx,
                self.light_update_queue@.len() == (x - lx) * (sy * sz),
                forall|i: int|
                    0 <= i < self.light_update_queue@.len() ==> {
                        let c = (#[trigger] self.light_update_queue@[i]).cube;
                        g.spec_contains(c) && g.spec_index_of(c) == i
                            && self.light_update_queue@[i].priority == 255
                    },
            decreases lx + sx - x,
        {
            let mut y = ly;
            while y != ly + sy
                invariant
                    lx == g.lower().x && ly == g.lower().y && lz == g.lower().z,
                    sx == g.size().x && sy == g.size().y && sz == g.size().z,
                    g.wf(),
                    self.grid == g,
                    self.block_data == old(self).block_data,
                    self.contents == old(self).contents,
                    self.lighting == old(self).lighting,
                    self.physics == old(self).physics,
                    self.packed_sky_color == old(self).packed_sky_color,
                    self.notifications == old(self).notifications,
                    lx <= x < lx + sx,
                    ly <= y <= ly + sy,
                    self.light_update_queue@.len() == (x - lx) * (sy * sz) + (y - ly) * sz,
                    forall|i: int|
                        0 <= i < self.light_update_queue@.len() ==> {
                            let c = (#[trigger] self.light_update_queue@[i]).cube;
                            g.spec_contains(c) && g.spec_index_of(c) == i
                                && self.light_update_queue@[i].priority == 255
                        },
                decreases ly + sy - y,
            {
                let mut z = lz;
                while z != lz + sz
                    invariant
                        lx == g.lower().x && ly == g.lower().y && lz == g.lower().z,
                        sx == g.size().x && sy == g.size().y && sz == g.size().z,
                        g.wf(),
                        self.grid == g,
                        self.block_data == old(self).block_data,
                        self.contents == old(self).contents,
                        self.lighting == old(self).lighting,
                        self.physics == old(self).physics,
                        self.packed_sky_color == old(self).packed_sky_color,
                        self.notifications == old(self).notifications,
                        lx <= x < lx + sx,
                        ly <= y < ly + sy,
                        lz <= z <= lz + sz,
                        self.light_update_queue@.len() == (x - lx) * (sy * sz) + (y - ly) * sz + (z
                            - lz),
                        forall|i: int|
                            0 <= i < self.light_update_queue@.len() ==> {
                                let c = (#[trigger] self.light_update_queue@[i]).cube;
                                g.spec_contains(c) && g.spec_index_of(c) == i
                                    && self.light_update_queue@[i].priority == 255
                            },
                    decreases lz + sz - z,
                {
                    let cube = GridPoint { x, y, z };
                    proof {
                        assert(g.spec_contains(cube));
                        assert(((x - lx) * sy + (y - ly)) * sz + (z - lz) == (x - lx) * (sy * sz)
                            + (y - ly) * sz + (z - lz)) by (nonlinear_arith);
                        assert(g.spec_index_of(cube) == (x - lx) * (sy * sz) + (y - ly) * sz + (z
                            - lz));
                        assert(!self.light_update_queue.spec_contains(cube));
                    }
                    self.light_update_queue.push_new(
                        LightUpdateRequest { priority: 255, cube },
                    );
                    z = z + 1;
                }
                proof {
                    assert((x - lx) * (sy * sz) + (y - ly) * sz + sz == (x - lx) * (sy * sz) + ((y
                        + 1) - ly) * sz) by (nonlinear_arith);
                }
                y = y + 1;
            }
            proof {
                assert((x - lx) * (sy * sz) + sy * sz == ((x + 1) - lx) * (sy * sz))
                    by (nonlinear_arith);
            }
            x = x + 1;
        }
        proof {
            assert(g.spec_volume() == (g.size().x - 0) * (g.size().y * g.size().z))
                by (nonlinear_arith);
            assert forall|c: GridPoint|
                self.grid.spec_contains(c) implies self.light_update_queue.spec_contains(c) by {
                lemma_index_in_range(g, c);
                lemma_volume_bounds(g);
                let i = g.spec_index_of(c);
                let qc = self.light_update_queue@[i].cube;
                lemma_index_injective(g, qc, c);
            }
            assert forall|i: int, j: int|
                0 <= i < j < self.light_update_queue@.len() implies self.light_update_queue@[i].cube
                != self.light_update_queue@[j].cube by {
                assert(g.spec_index_of(self.light_update_queue@[i].cube) == i);
                assert(g.spec_index_of(self.light_update_queue@[j].cube) == j);
            }
        }
    }

    /// Constructs a `Space` that is entirely filled with the canonical empty
    /// block, under the default physics.
    ///
    /// The store is born settled: every cell's light is initialized to the
    /// value the ray kernel derives for the empty volume, and the update
    /// queue starts empty.
    /// The kernel light value of a cell of a volume with no opaque block
    /// anywhere, under the default physics: the sky color scaled by how many
    /// of the six axis rays reach the boundary within range.
    fn clear_cell_light(&self, cube: GridPoint) -> (r: PackedLight)
        requires
            self.grid.wf(),
            self.grid.spec_contains(cube),
            self.physics.light == (LightPhysics::Rays { maximum_distance: 30u16 }),
            self.physics.sky_color == (Rgb { red: 201, green: 222, blue: 255 }),
            forall|c: GridPoint|
                self.grid.spec_contains(c) ==> !(#[trigger] self.spec_opaque_at(c)),
        ensures
            r == self.spec_light_of(cube),
    {
        let lx = self.grid.lower_bounds().x;
        let ly = self.grid.lower_bounds().y;
        let lz = self.grid.lower_bounds().z;
        let ux = self.grid.upper_bounds().x;
        let uy = self.grid.upper_bounds().y;
        let uz = self.grid.upper_bounds().z;
        let maxd: i64 = 30;
        let x = cube.x;
        let y = cube.y;
        let z = cube.z;
        let mut n: u16 = 0;
        if (x as i64) + 1 - (lx as i64) <= maxd {
            n = n + 1;
        }
        if (ux as i64) - (x as i64) <= maxd {
            n = n + 1;
        }
        if (y as i64) + 1 - (ly as i64) <= maxd {
            n = n + 1;
        }
        if (uy as i64) - (y as i64) <= maxd {
            n = n + 1;
        }
        if (z as i64) + 1 - (lz as i64) <= maxd {
            n = n + 1;
        }
        if (uz as i64) - (z as i64) <= maxd {
            n = n + 1;
        }
        proof {
            let cx = cube.x as int;
            let cy = cube.y as int;
            let cz = cube.z as int;
            lemma_ray_in_clear_space(*self, cx, cy, cz, -1, 0, 0, 30nat);
            lemma_ray_in_clear_space(*self, cx, cy, cz, 1, 0, 0, 30nat);
            lemma_ray_in_clear_space(*self, cx, cy, cz, 0, -1, 0, 30nat);
            lemma_ray_in_clear_space(*self, cx, cy, cz, 0, 1, 0, 30nat);
            lemma_ray_in_clear_space(*self, cx, cy, cz, 0, 0, -1, 30nat);
            lemma_ray_in_clear_space(*self, cx, cy, cz, 0, 0, 1, 30nat);
            assert(n as int == self.spec_sky_ray_count(cube));
            assert(!self.spec_opaque_at(cube));
        }
        PackedLight::valued(
            Rgb {
                red: ((n as u32 * 201) / 6) as u8,
                green: ((n as u32 * 222) / 6) as u8,
                blue: ((n as u32 * 255) / 6) as u8,
            },
        )
    }

    #[verifier::spinoff_prover]
    #[verifier::rlimit(100)]
    pub fn empty(grid: Grid) -> (r: Space)
        requires
            grid.wf(),
        ensures
            r.wf(),
            r.grid == grid,
            r.physics == (SpacePhysics {
                gravity: GridVector { x: 0, y: -20000i32, z: 0 },
                sky_color: Rgb { red: 201, green: 222, blue: 255 },
                light: LightPhysics::Rays { maximum_distance: 30u16 },
            }),
            r.block_data@.len() == 1,
            forall|k: int| 0 <= k < r.contents@.len() ==> r.contents@[k] == 0,
            forall|c: GridPoint| r.spec_block_at(c) == air_snapshot(),
            r.light_update_queue@.len() == 0,
            forall|c: GridPoint|
                #[trigger] grid.spec_contains(c) ==> r.lighting@[grid.spec_index_of(c)]
                    == r.spec_light_of(c),
            r.notifications@.len() == 0,
    {
        let volume = grid.volume();
        let mut contents: Vec<BlockIndex> = Vec::new();
        let mut k: usize = 0;
        while k < volume
            invariant
                k <= volume,
                contents@.len() == k,
                forall|i: int| 0 <= i < k ==> contents@[i] == 0,
            decreases volume - k,
        {
            contents.push(0);
            k = k + 1;
        }
        let mut block_data: Vec<SpaceBlockData> = Vec::new();
        block_data.push(
            SpaceBlockData {
                block: Block::air(),
                count: volume,
                evaluated: EvaluatedBlock {
                    color: crate::block::Rgba { red: 0, green: 0, blue: 0, alpha: 0 },
                    opaque: false,
                    visible: false,
                },
            },
        );
        let physics = SpacePhysics {
            gravity: GridVector { x: 0, y: -20000, z: 0 },
            sky_color: Rgb { red: 201, green: 222, blue: 255 },
            light: LightPhysics::Rays { maximum_distance: 30 },
        };
        let mut space = Space {
            grid,
            block_data,
            contents,
            lighting: Vec::new(),
            light_update_queue: LightUpdateQueue::new(),
            physics,
            packed_sky_color: physics.sky_color,
            notifications: Vec::new(),
        };
        proof {
            lemma_volume_bounds(grid);
            assert(space.contents@ =~= Seq::new(grid.spec_volume() as nat, |i: int| 0u16));
            lemma_occurrences_constant(grid.spec_volume() as nat, 0u16, 0u16);
            assert(crate::block::apply_modifiers(Seq::empty(), air_evaluated())
                == air_evaluated());
            assert(space.table_wf());
        }
        let ghost base = space;
        proof {
            assert forall|c: GridPoint| base.grid.spec_contains(c) implies !(
            #[trigger] base.spec_opaque_at(c)) by {
                lemma_index_in_range(grid, c);
            }
        }
        let lx = grid.lower_bounds().x;
        let ly = grid.lower_bounds().y;
        let lz = grid.lower_bounds().z;
        let ux = grid.upper_bounds().x;
        let uy = grid.upper_bounds().y;
        let uz = grid.upper_bounds().z;
        let maxd: i64 = 30;
        let mut x = lx;
        while x != ux
            invariant
                lx == grid.lower().x && ly == grid.lower().y && lz == grid.lower().z,
                ux == grid.lower().x + grid.size().x && uy == grid.lower().y + grid.size().y && uz
                    == grid.lower().z + grid.size().z,
                grid.wf(),
                maxd == 30,
                lx <= x <= ux,
                space.grid == base.grid && base.grid == grid,
                space.block_data == base.block_data,
                space.contents == base.contents,
                space.light_update_queue == base.light_update_queue,
                base.light_update_queue@.len() == 0,
                space.physics == base.physics && base.physics.light == (LightPhysics::Rays {
                    maximum_distance: 30u16,
                }) && base.physics.sky_color == (Rgb { red: 201, green: 222, blue: 255 }),
                space.packed_sky_color == base.packed_sky_color,
                space.notifications == base.notifications,
                base.notifications@.len() == 0,
                forall|c: GridPoint|
                    base.grid.spec_contains(c) ==> !(#[trigger] base.spec_opaque_at(c)),
                space.lighting@.len() == (x - lx) * (grid.size().y * grid.size().z),
                forall|c: GridPoint|
                    #[trigger] grid.spec_contains(c) && c.x < x ==> 0 <= grid.spec_index_of(c)
                        < space.lighting@.len() && space.lighting@[grid.spec_index_of(c)]
                        == base.spec_light_of(c),
            decreases ux - x,
        {
            let mut y = ly;
            while y != uy
                invariant
                    lx == grid.lower().x && ly == grid.lower().y && lz == grid.lower().z,
                    ux == grid.lower().x + grid.size().x && uy == grid.lower().y + grid.size().y
                        && uz == grid.lower().z + grid.size().z,
                    grid.wf(),
                    maxd == 30,
                    lx <= x < ux,
                    ly <= y <= uy,
                    space.grid == base.grid && base.grid == grid,
                    space.block_data == base.block_data,
                    space.contents == base.contents,
                    space.light_update_queue == base.light_update_queue,
                    base.light_update_queue@.len() == 0,
                    space.physics == base.physics && base.physics.light == (LightPhysics::Rays {
                        maximum_distance: 30u16,
                    }) && base.physics.sky_color == (Rgb { red: 201, green: 222, blue: 255 }),
                    space.packed_sky_color == base.packed_sky_color,
                    space.notifications == base.notifications,
                    base.notifications@.len() == 0,
                    forall|c: GridPoint|
                        base.grid.spec_contains(c) ==> !(#[trigger] base.spec_opaque_at(c)),
                    space.lighting@.len() == (x - lx) * (grid.size().y * grid.size().z) + (y - ly)
                        * grid.size().z,
                    forall|c: GridPoint|
                        #[trigger] grid.spec_contains(c) && (c.x < x || (c.x == x && c.y < y))
                            ==> 0 <= grid.spec_index_of(c) < space.lighting@.len()
                            && space.lighting@[grid.spec_index_of(c)] == base.spec_light_of(c),
                decreases uy - y,
            {
                let mut z = lz;
                while z != uz
                    invariant
                        lx == grid.lower().x && ly == grid.lower().y && lz == grid.lower().z,
                        ux == grid.lower().x + grid.size().x && uy == grid.lower().y
                            + grid.size().y && uz == grid.lower().z + grid.size().z,
                        grid.wf(),
                        maxd == 30,
                        lx <= x < ux,
                        ly <= y < uy,
                        lz <= z <= uz,
                        space.grid == base.grid && base.grid == grid,
                        space.block_data == base.block_data,
                        space.contents == base.contents,
                        space.light_update_queue == base.light_update_queue,
                        base.light_update_queue@.len() == 0,
                        space.physics == base.physics && base.physics.light
                            == (LightPhysics::Rays { maximum_distance: 30u16 })
                            && base.physics.sky_color == (Rgb {
                            red: 201,
                            green: 222,
                            blue: 255,
                        }),
                        space.packed_sky_color == base.packed_sky_color,
                        space.notifications == base.notifications,
                        base.notifications@.len() == 0,
                        forall|c: GridPoint|
                            base.grid.spec_contains(c) ==> !(#[trigger] base.spec_opaque_at(c)),
                        space.lighting@.len() == (x - lx) * (grid.size().y * grid.size().z) + (y
                            - ly) * grid.size().z + (z - lz),
                        forall|c: GridPoint|
                            #[trigger] grid.spec_contains(c) && (c.x < x || (c.x == x && (c.y < y
                                || (c.y == y && c.z < z)))) ==> 0 <= grid.spec_index_of(c)
                                < space.lighting@.len() && space.lighting@[grid.spec_index_of(c)]
                                == base.spec_light_of(c),
                    decreases uz - z,
                {
                    let cube = GridPoint { x, y, z };
                    proof {
                        assert(grid.spec_contains(cube));
                        assert(((x - lx) * grid.size().y + (y - ly)) * grid.size().z + (z - lz)
                            == (x - lx) * (grid.size().y * grid.size().z) + (y - ly)
                            * grid.size().z + (z - lz)) by (nonlinear_arith);
                        assert(grid.spec_index_of(cube) == space.lighting@.len() as int);
                    }
                    proof {
                        assert forall|c: GridPoint|
                            space.grid.spec_contains(c) implies !(
                        #[trigger] space.spec_opaque_at(c)) by {
                            assert(!base.spec_opaque_at(c));
                        }
                    }
                    let value = space.clear_cell_light(cube);
                    proof {
                        lemma_light_congruent(base, space, cube);
                        assert(value == base.spec_light_of(cube));
                    }
                    space.lighting.push(value);
                    z = z + 1;
                }
                proof {
                    assert((x - lx) * (grid.size().y * grid.size().z) + (y - ly) * grid.size().z
                        + grid.size().z == (x - lx) * (grid.size().y * grid.size().z) + ((y + 1)
                        - ly) * grid.size().z) by (nonlinear_arith);
                }
                y = y + 1;
            }
            proof {
                assert((x - lx) * (grid.size().y * grid.size().z) + grid.size().y * grid.size().z
                    == ((x + 1) - lx) * (grid.size().y * grid.size().z)) by (nonlinear_arith);
            }
            x = x + 1;
        }
        proof {
            assert(space.lighting@.len() == grid.spec_volume()) by (nonlinear_arith)
                requires
                    space.lighting@.len() == (ux - lx) * (grid.size().y * grid.size().z),
                    ux - lx == grid.size().x,
                    grid.spec_volume() == grid.size().x * grid.size().y * grid.size().z,
            ;
            assert forall|c: GridPoint| #[trigger] grid.spec_contains(c) implies space.lighting@[
            grid.spec_index_of(c)] == space.spec_light_of(c) by {
                assert(c.x < ux);
                assert(space.lighting@[grid.spec_index_of(c)] == base.spec_light_of(c));
                lemma_light_congruent(base, space, c);
            }
            assert forall|c: GridPoint| space.spec_block_at(c) == air_snapshot() by {
                if grid.spec_contains(c) {
                    lemma_index_in_range(grid, c);
                }
            }
            assert(space.table_wf());
            assert(space.light_wf());
        }
        space
    }

    /// Constructs a `Space` that is entirely empty and whose coordinate
    /// system is in the all-positive octant.
    pub fn empty_positive(wx: i32, wy: i32, wz: i32) -> (r: Space)
        requires
            (Grid {
                lower_bounds: GridPoint { x: 0, y: 0, z: 0 },
                sizes: GridVector { x: wx, y: wy, z: wz },
            }).wf(),
        ensures
            r.wf(),
            r.grid.lower() == (GridPoint { x: 0, y: 0, z: 0 }),
            r.grid.size() == (GridVector { x: wx, y: wy, z: wz }),
            r.block_data@.len() == 1,
            forall|c: GridPoint| r.spec_block_at(c) == air_snapshot(),
            r.notifications@.len() == 0,
    {
        Space::empty(
            Grid::new(GridPoint { x: 0, y: 0, z: 0 }, GridVector { x: wx, y: wy, z: wz }),
        )
    }

    /// Returns the [`Grid`] describing the bounds of this space; no blocks
    /// may exist outside it.
    pub fn grid(&self) -> (r: Grid)
        ensures
            r == self.grid,
    {
        self.grid
    }

    /// Returns the current physics data, which determines global
    /// characteristics such as the behavior of light.
    pub fn physics(&self) -> (r: &SpacePhysics)
        ensures
            *r == self.physics,
    {
        &self.physics
    }

    /// Returns the internal numeric ID for the block at the given position,
    /// or `None` if the position is out of bounds. These IDs may be used to
    /// perform efficient processing of many blocks, but they may be
    /// renumbered after any mutation.
    pub fn get_block_index(&self, position: GridPoint) -> (r: Option<BlockIndex>)
        requires
            self.wf(),
        ensures
            r is Some <==> self.grid.spec_contains(position),
            r is Some ==> r->0 == self.contents@[self.grid.spec_index_of(position)],
    {
        match self.grid.index(position) {
            Some(contents_index) => {
                proof {
                    lemma_index_in_range(self.grid, position);
                }
                Some(self.contents[contents_index])
            },
            None => None,
        }
    }

    /// Gets the block in this space at the given position. If the position
    /// is out of bounds, returns the canonical empty block.
    pub fn get_block(&self, position: GridPoint) -> (r: Block)
        requires
            self.wf(),
        ensures
            r@ == self.spec_block_at(position),
    {
        match self.grid.index(position) {
            Some(contents_index) => {
                proof {
                    lemma_index_in_range(self.grid, position);
                }
                self.block_data[self.contents[contents_index] as usize].block.clone()
            },
            None => Block::air(),
        }
    }

    /// Gets the evaluated form of the block at the given position. If the
    /// position is out of bounds, returns the evaluation of the canonical
    /// empty block.
    pub fn get_evaluated(&self, position: GridPoint) -> (r: EvaluatedBlock)
        requires
            self.wf(),
        ensures
            self.grid.spec_contains(position) ==> r == self.block_data@[self.contents@[self.grid.spec_index_of(position)] as int]@.evaluated,
            !self.grid.spec_contains(position) ==> r == air_evaluated(),
    {
        match self.grid.index(position) {
            Some(contents_index) => {
                proof {
                    lemma_index_in_range(self.grid, position);
                }
                self.block_data[self.contents[contents_index] as usize].evaluated
            },
            None => EvaluatedBlock {
                color: crate::block::Rgba { red: 0, green: 0, blue: 0, alpha: 0 },
                opaque: false,
                visible: false,
            },
        }
    }

    /// Returns the light occupying the given cube: the stored value inside
    /// the grid, and the sky color outside of it. When light computation is
    /// disabled, full white light is reported everywhere.
    pub fn get_lighting(&self, position: GridPoint) -> (r: PackedLight)
        requires
            self.wf(),
        ensures
            self.physics.light is Disabled ==> r == (PackedLight {
                status: LightStatus::Valued,
                value: Rgb { red: 255, green: 255, blue: 255 },
            }),
            self.physics.light is Rays && self.grid.spec_contains(position) ==> r
                == self.lighting@[self.grid.spec_index_of(position)],
            self.physics.light is Rays && !self.grid.spec_contains(position) ==> r
                == (PackedLight { status: LightStatus::Valued, value: self.packed_sky_color }),
    {
        match self.physics.light {
            LightPhysics::Disabled => PackedLight::valued(
                Rgb { red: 255, green: 255, blue: 255 },
            ),
            LightPhysics::Rays { .. } => {
                match self.grid.index(position) {
                    Some(contents_index) => {
                        proof {
                            lemma_index_in_range(self.grid, position);
                        }
                        self.lighting[contents_index]
                    },
                    None => PackedLight::valued(self.packed_sky_color),
                }
            },
        }
    }

    /// Returns data about all the blocks assigned internal IDs in the space,
    /// as well as placeholder data for any deallocated indices. The indices
    /// of this slice correspond to the results of
    /// [`Space::get_block_index`].
    pub fn block_data(&self) -> (r: &Vec<SpaceBlockData>)
        ensures
            r == &self.block_data,
    {
        &self.block_data
    }

    /// The index interning `block`, if any live entry holds it.
    fn find_block_index(&self, block: &Block) -> (r: Option<BlockIndex>)
        requires
            self.table_wf(),
        ensures
            r is Some ==> {
                &&& r->0 < self.block_data@.len()
                &&& self.block_data@[r->0 as int]@.count > 0
                &&& self.block_data@[r->0 as int]@.block == block@
            },
            r is None ==> forall|j: int|
                0 <= j < self.block_data@.len() && (#[trigger] self.block_data@[j]@.count) > 0
                    ==> self.block_data@[j]@.block != block@,
    {
        let n = self.block_data.len();
        let mut i: usize = 0;
        while i < n
            invariant
                i <= n,
                n == self.block_data@.len(),
                self.table_wf(),
                forall|j: int|
                    0 <= j < i && (#[trigger] self.block_data@[j]@.count) > 0
                        ==> self.block_data@[j]@.block != block@,
            decreases n - i,
        {
            if self.block_data[i].count > 0 && self.block_data[i].block == *block {
                return Some(i as BlockIndex);
            }
            i = i + 1;
        }
        None
    }

    /// Finds or assigns an index to denote the block: an existing live entry
    /// holding an equal block is reused as is; otherwise the lowest freed
    /// slot (or a fresh one) is filled with the block at a count of zero,
    /// and an index-reassignment change is recorded. The caller is
    /// responsible for incrementing the count.
    ///
    /// On any failure the space is left exactly as it was.
    fn ensure_block_index(&mut self, block: &Block) -> (r: Result<BlockIndex, SetCubeError>)
        requires
            old(self).table_wf(),
        ensures
            final(self).grid == old(self).grid,
            final(self).contents == old(self).contents,
            final(self).lighting == old(self).lighting,
            final(self).light_update_queue == old(self).light_update_queue,
            final(self).physics == old(self).physics,
            final(self).packed_sky_color == old(self).packed_sky_color,
            r is Err ==> *final(self) == *old(self),
            r is Ok ==> ensure_index_post(*old(self), *final(self), block@, r->Ok_0 as int),
            r matches Err(SetCubeError::EvalBlock(e)) ==> old(self).no_live_block(block@)
                && spec_evaluate(block@) == Err::<EvaluatedBlock, EvalBlockError>(e) && !(old(self).no_free_slot() && old(self).block_data@.len() == u16::MAX),
            old(self).no_live_block(block@) && spec_evaluate(block@) is Err && !(old(self).no_free_slot() && old(self).block_data@.len() == u16::MAX) ==> r == Err::<
                BlockIndex,
                SetCubeError,
            >(SetCubeError::EvalBlock(spec_evaluate(block@)->Err_0)),
            (r matches Err(SetCubeError::TooManyBlocks)) <==> (old(self).no_live_block(block@)
                && old(self).no_free_slot() && old(self).block_data@.len() == u16::MAX),
            !(r matches Err(SetCubeError::OutOfBounds { .. })),
    {
        if let Some(old_index) = self.find_block_index(block) {
            proof {
                assert(!self.no_live_block(block@));
            }
            return Ok(old_index);
        }
        // Look for a previously used index to take, before anything that can
        // fail for another reason: exhaustion of the index space is reported
        // whether or not the block is evaluable.
        let high_mark = self.block_data.len();
        let mut new_index: usize = 0;
        let mut free_slot: Option<usize> = None;
        while new_index < high_mark
            invariant
                new_index <= high_mark,
                high_mark == self.block_data@.len(),
                self.table_wf(),
                *self == *old(self),
                free_slot is None ==> forall|j: int|
                    0 <= j < new_index ==> (#[trigger] self.block_data@[j]@.count) > 0,
                free_slot matches Some(i) ==> i < high_mark && self.block_data@[i as int]@.count
                    == 0 && (forall|j: int|
                    0 <= j < i ==> (#[trigger] self.block_data@[j]@.count) > 0),
            decreases high_mark - new_index,
        {
            if free_slot.is_none() && self.block_data[new_index].count == 0 {
                free_slot = Some(new_index);
            }
            new_index = new_index + 1;
        }
        if free_slot.is_none() && high_mark >= (BlockIndex::MAX as usize) {
            proof {
                assert(self.no_free_slot());
            }
            return Err(SetCubeError::TooManyBlocks);
        }
        let evaluated = match block.evaluate() {
            Ok(e) => e,
            Err(e) => {
                proof {
                    if free_slot is None {
                        assert(self.no_free_slot());
                    } else {
                        let i = free_slot->0;
                        assert(self.block_data@[i as int]@.count == 0);
                        assert(!self.no_free_slot());
                    }
                }
                return Err(SetCubeError::EvalBlock(e));
            },
        };
        match free_slot {
            Some(slot) => {
                self.block_data.set(
                    slot,
                    SpaceBlockData { block: block.clone(), count: 0, evaluated },
                );
                self.notifications.push(SpaceChange::Number(slot as BlockIndex));
                proof {
                    assert(!old(self).no_free_slot());
                }
                Ok(slot as BlockIndex)
            },
            None => {
                self.block_data.push(
                    SpaceBlockData { block: block.clone(), count: 0, evaluated },
                );
                self.notifications.push(SpaceChange::Number(high_mark as BlockIndex));
                proof {
                    assert(old(self).no_free_slot());
                }
                Ok(high_mark as BlockIndex)
            },
        }
    }

    /// Whether some live entry interns block value `b`.
    pub open spec fn has_live_block(self, b: BlockSnapshot) -> bool {
        exists|j: int|
            0 <= j < self.block_data@.len() && (#[trigger] self.block_data@[j]@.count) > 0
                && self.block_data@[j]@.block == b
    }

    /// Whether no live entry interns block value `b`.
    pub open spec fn no_live_block(self, b: BlockSnapshot) -> bool {
        forall|j: int|
            0 <= j < self.block_data@.len() && (#[trigger] self.block_data@[j]@.count) > 0
                ==> self.block_data@[j]@.block != b
    }

    /// Whether the table has no freed slot to reuse.
    pub open spec fn no_free_slot(self) -> bool {
        forall|j: int|
            0 <= j < self.block_data@.len() ==> (#[trigger] self.block_data@[j]@.count) > 0
    }

    /// The count of entry `idx`, or zero for an index one past the end.
    pub open spec fn spec_count_or_zero(self, idx: int) -> nat {
        if idx < self.block_data@.len() {
            self.block_data@[idx]@.count
        } else {
            0
        }
    }

    /// Walk one axis ray outward from `position`, enqueueing every in-grid
    /// cell up to `range` steps away for light recomputation at maximum
    /// priority.
    fn enqueue_axis_line(&mut self, position: GridPoint, dx: i32, dy: i32, dz: i32, range: u16)
        requires
            old(self).grid.wf(),
            old(self).grid.spec_contains(position),
            old(self).light_update_queue.wf(),
            forall|i: int|
                0 <= i < old(self).light_update_queue@.len() ==> old(self).grid.spec_contains(
                    (#[trigger] old(self).light_update_queue@[i]).cube,
                ),
            dx * dx + dy * dy + dz * dz == 1,
            -1 <= dx <= 1 && -1 <= dy <= 1 && -1 <= dz <= 1,
            forall|i: int|
                0 <= i < old(self).light_update_queue@.len() ==> (#[trigger] old(self).light_update_queue@[i]).priority >= 1,
        ensures
            final(self).grid == old(self).grid,
            final(self).block_data == old(self).block_data,
            final(self).contents == old(self).contents,
            final(self).lighting == old(self).lighting,
            final(self).physics == old(self).physics,
            final(self).packed_sky_color == old(self).packed_sky_color,
            final(self).notifications == old(self).notifications,
            final(self).light_update_queue.wf(),
            forall|i: int|
                0 <= i < final(self).light_update_queue@.len() ==> final(self).grid.spec_contains(
                    (#[trigger] final(self).light_update_queue@[i]).cube,
                ),
            forall|c: GridPoint|
                old(self).light_update_queue.spec_contains(c)
                    ==> final(self).light_update_queue.spec_contains(c),
            forall|q: GridPoint|
                final(self).grid.spec_contains(q) && #[trigger] on_ray(
                    position,
                    q,
                    dx as int,
                    dy as int,
                    dz as int,
                    range as int,
                ) ==> final(self).light_update_queue.spec_contains(q),
            forall|i: int|
                0 <= i < final(self).light_update_queue@.len() ==> (#[trigger] final(self).light_update_queue@[i]).priority >= 1,
            queue_extended_max(old(self).light_update_queue@, final(self).light_update_queue@),
            forall|c: GridPoint|
                final(self).light_update_queue.spec_contains(c) ==> old(self).light_update_queue.spec_contains(c) || on_ray(
                    position,
                    c,
                    dx as int,
                    dy as int,
                    dz as int,
                    range as int,
                ),
    {
        let px: i64 = position.x as i64;
        let py: i64 = position.y as i64;
        let pz: i64 = position.z as i64;
        let lx: i64 = self.grid.lower_bounds().x as i64;
        let ly: i64 = self.grid.lower_bounds().y as i64;
        let lz: i64 = self.grid.lower_bounds().z as i64;
        let ux: i64 = self.grid.upper_bounds().x as i64;
        let uy: i64 = self.grid.upper_bounds().y as i64;
        let uz: i64 = self.grid.upper_bounds().z as i64;
        let mut k: u16 = 0;
        while k < range
            invariant
                0 <= k <= range,
                px == position.x as int && py == position.y as int && pz == position.z as int,
                lx == self.grid.lower().x as int && ly == self.grid.lower().y as int && lz
                    == self.grid.lower().z as int,
                ux == self.grid.lower().x + self.grid.size().x && uy == self.grid.lower().y
                    + self.grid.size().y && uz == self.grid.lower().z + self.grid.size().z,
                self.grid.wf(),
                self.grid == old(self).grid,
                self.block_data == old(self).block_data,
                self.contents == old(self).contents,
                self.lighting == old(self).lighting,
                self.physics == old(self).physics,
                self.packed_sky_color == old(self).packed_sky_color,
                self.notifications == old(self).notifications,
                self.light_update_queue.wf(),
                dx * dx + dy * dy + dz * dz == 1,
                -1 <= dx <= 1 && -1 <= dy <= 1 && -1 <= dz <= 1,
                forall|i: int|
                    0 <= i < self.light_update_queue@.len() ==> self.grid.spec_contains(
                        (#[trigger] self.light_update_queue@[i]).cube,
                    ),
                forall|c: GridPoint|
                    old(self).light_update_queue.spec_contains(c)
                        ==> self.light_update_queue.spec_contains(c),
                forall|i: int|
                    0 <= i < self.light_update_queue@.len() ==> (#[trigger] self.light_update_queue@[i]).priority >= 1,
                queue_extended_max(old(self).light_update_queue@, self.light_update_queue@),
                forall|c: GridPoint|
                    self.light_update_queue.spec_contains(c) ==> old(self).light_update_queue.spec_contains(c) || on_ray(
                        position,
                        c,
                        dx as int,
                        dy as int,
                        dz as int,
                        k as int,
                    ),
                forall|q: GridPoint|
                    self.grid.spec_contains(q) && #[trigger] on_ray(
                        position,
                        q,
                        dx as int,
                        dy as int,
                        dz as int,
                        k as int,
                    ) ==> self.light_update_queue.spec_contains(q),
            decreases range - k,
        {
            let k1: i64 = (k + 1) as i64;
            proof {
                assert(-65536 <= k1 * (dx as i64) <= 65536 && -65536 <= k1 * (dy as i64) <= 65536
                    && -65536 <= k1 * (dz as i64) <= 65536) by (nonlinear_arith)
                    requires
                        0 <= k1 <= 65536,
                        -1 <= dx as i64 <= 1,
                        -1 <= dy as i64 <= 1,
                        -1 <= dz as i64 <= 1,
                ;
            }
            let qx: i64 = px + k1 * (dx as i64);
            let qy: i64 = py + k1 * (dy as i64);
            let qz: i64 = pz + k1 * (dz as i64);
            let ghost stepped = |q: GridPoint|
                q.x == position.x + k1 * dx && q.y == position.y + k1 * dy && q.z == position.z
                    + k1 * dz;
            proof {
                assert(qx == px + k1 * dx && qy == py + k1 * dy && qz == pz + k1 * dz);
                assert forall|q: GridPoint|
                    #[trigger] on_ray(position, q, dx as int, dy as int, dz as int, k + 1 as int)
                        && !on_ray(
                        position,
                        q,
                        dx as int,
                        dy as int,
                        dz as int,
                        k as int,
                    ) implies stepped(q) by {
                    let j = ray_step(position, q, dx as int, dy as int, dz as int);
                    assert(j == k1);
                }
            }
            if qx >= lx && qx < ux && qy >= ly && qy < uy && qz >= lz && qz < uz {
                let q = GridPoint { x: qx as i32, y: qy as i32, z: qz as i32 };
                proof {
                    assert(q.x as int == qx && q.y as int == qy && q.z as int == qz);
                    assert(self.grid.spec_contains(q));
                    assert forall|c: GridPoint| #[trigger] stepped(c) implies c == q by {}
                }
                let ghost before_insert = self.light_update_queue;
                self.light_update_queue.insert(
                    LightUpdateRequest { priority: 255, cube: q },
                );
                proof {
                    assert(ray_step(
                        position,
                        q,
                        dx as int,
                        dy as int,
                        dz as int,
                    ) == k1) by (nonlinear_arith)
                        requires
                            q.x == position.x + k1 * dx,
                            q.y == position.y + k1 * dy,
                            q.z == position.z + k1 * dz,
                            dx * dx + dy * dy + dz * dz == 1,
                    ;
                    assert(on_ray(position, q, dx as int, dy as int, dz as int, k + 1 as int));
                    assert forall|c: GridPoint|
                        self.light_update_queue.spec_contains(c) implies old(self).light_update_queue.spec_contains(c) || on_ray(
                        position,
                        c,
                        dx as int,
                        dy as int,
                        dz as int,
                        k + 1 as int,
                    ) by {
                        if c != q {
                            assert(before_insert.spec_contains(c));
                            if !old(self).light_update_queue.spec_contains(c) {
                                assert(on_ray(
                                    position,
                                    c,
                                    dx as int,
                                    dy as int,
                                    dz as int,
                                    k as int,
                                ));
                            }
                        }
                    }
                }
            } else {
                proof {
                    assert forall|c: GridPoint| #[trigger] stepped(c)
                        implies !self.grid.spec_contains(c) by {
                        assert(c.x as int == qx && c.y as int == qy && c.z as int == qz);
                    }
                    assert forall|c: GridPoint|
                        self.light_update_queue.spec_contains(c) implies old(self).light_update_queue.spec_contains(c) || on_ray(
                        position,
                        c,
                        dx as int,
                        dy as int,
                        dz as int,
                        k + 1 as int,
                    ) by {
                        if !old(self).light_update_queue.spec_contains(c) {
                            assert(on_ray(position, c, dx as int, dy as int, dz as int, k as int));
                        }
                    }
                }
            }
            k = k + 1;
        }
    }

    /// Implement the consequences of changing a cell's block: a cell now
    /// inside an opaque block is given the constant dark light value at once
    /// and not queued; any other cell is queued at maximum priority; and
    /// every cell whose sample rays can pass through the changed cell (those
    /// on the six axis lines within the ray range) is re-enqueued. Records
    /// the cell-changed event last.
    ///
    /// Under the non-recursive axis-ray kernel the magnitude of a stale
    /// cell's change is not estimated, so every invalidation carries the
    /// maximum priority.
    fn side_effects_of_set(&mut self, position: GridPoint, contents_index: usize)
        requires
            old(self).grid.wf(),
            old(self).grid.spec_contains(position),
            contents_index == old(self).grid.spec_index_of(position),
            old(self).light_update_queue.wf(),
            forall|i: int|
                0 <= i < old(self).light_update_queue@.len() ==> old(self).grid.spec_contains(
                    (#[trigger] old(self).light_update_queue@[i]).cube,
                ),
            old(self).contents@.len() == old(self).grid.spec_volume(),
            forall|k: int|
                0 <= k < old(self).contents@.len() ==> (#[trigger] old(self).contents@[k])
                    < old(self).block_data@.len(),
            old(self).physics.light is Rays ==> old(self).lighting@.len() == old(self).grid.spec_volume(),
            forall|i: int|
                0 <= i < old(self).light_update_queue@.len() ==> (#[trigger] old(self).light_update_queue@[i]).priority >= 1,
        ensures
            final(self).grid == old(self).grid,
            final(self).block_data == old(self).block_data,
            final(self).contents == old(self).contents,
            final(self).physics == old(self).physics,
            final(self).packed_sky_color == old(self).packed_sky_color,
            final(self).light_update_queue.wf(),
            forall|i: int|
                0 <= i < final(self).light_update_queue@.len() ==> final(self).grid.spec_contains(
                    (#[trigger] final(self).light_update_queue@[i]).cube,
                ),
            forall|c: GridPoint|
                old(self).light_update_queue.spec_contains(c)
                    ==> final(self).light_update_queue.spec_contains(c),
            forall|i: int|
                0 <= i < final(self).light_update_queue@.len() ==> (#[trigger] final(self).light_update_queue@[i]).priority >= 1,
            final(self).notifications@ == old(self).notifications@ + (if final(self).physics.light is Rays && final(self).spec_opaque_at(position) {
                seq![SpaceChange::Lighting(position), SpaceChange::Block(position)]
            } else {
                seq![SpaceChange::Block(position)]
            }),
            final(self).physics.light is Disabled ==> final(self).lighting == old(self).lighting
                && final(self).light_update_queue == old(self).light_update_queue,
            final(self).physics.light is Rays ==> {
                &&& (final(self).spec_opaque_at(position) ==> final(self).lighting@ == old(self).lighting@.update(contents_index as int, spec_opaque_light()))
                &&& (!final(self).spec_opaque_at(position) ==> final(self).lighting == old(self).lighting && final(self).light_update_queue.spec_contains(position))
                &&& forall|q: GridPoint|
                    final(self).grid.spec_contains(q) && q != position && #[trigger]
                        on_axis_within(position, q, final(self).light_range()) ==> final(self).light_update_queue.spec_contains(q)
                &&& queue_extended_max(
                    old(self).light_update_queue@,
                    final(self).light_update_queue@,
                )
                &&& (final(self).spec_opaque_at(position) ==> (final(self).light_update_queue.spec_contains(position) <==> old(self).light_update_queue.spec_contains(position)))
            },
    {
        let ghost pre = *self;
        let range: u16 = match self.physics.light {
            LightPhysics::Disabled => {
                self.notifications.push(SpaceChange::Block(position));
                proof {
                    assert(self.notifications@ =~= old(self).notifications@ + seq![
                        SpaceChange::Block(position),
                    ]);
                }
                return ;
            },
            LightPhysics::Rays { maximum_distance } => maximum_distance,
        };
        proof {
            lemma_index_in_range(self.grid, position);
        }
        let evaluated = self.block_data[self.contents[contents_index] as usize].evaluated;
        if evaluated.opaque {
            self.lighting.set(contents_index, PackedLight::opaque());
            self.notifications.push(SpaceChange::Lighting(position));
        } else {
            self.light_update_queue.insert(
                LightUpdateRequest { priority: 255, cube: position },
            );
        }
        let ghost q1 = self.light_update_queue@;
        self.enqueue_axis_line(position, 1, 0, 0, range);
        let ghost q2 = self.light_update_queue@;
        self.enqueue_axis_line(position, -1, 0, 0, range);
        let ghost q3 = self.light_update_queue@;
        self.enqueue_axis_line(position, 0, 1, 0, range);
        let ghost q4 = self.light_update_queue@;
        self.enqueue_axis_line(position, 0, -1, 0, range);
        let ghost q5 = self.light_update_queue@;
        self.enqueue_axis_line(position, 0, 0, 1, range);
        let ghost q6 = self.light_update_queue@;
        self.enqueue_axis_line(position, 0, 0, -1, range);
        self.notifications.push(SpaceChange::Block(position));
        proof {
            assert(self.spec_opaque_at(position) == evaluated.opaque);
            let q0 = pre.light_update_queue@;
            let q7 = self.light_update_queue@;
            assert(queue_extended_max(q0, q1)) by {
                if !evaluated.opaque {
                    assert forall|i: int|
                        0 <= i < q1.len() implies (#[trigger] q1[i]).priority == 255 || exists|j: int|
                        0 <= j < q0.len() && q0[j] == q1[i] by {
                        if q1[i].cube != position {
                        } else {
                            assert(q1[i].priority >= 255);
                        }
                    }
                }
            }
            lemma_queue_extended_max_trans(q0, q1, q2);
            lemma_queue_extended_max_trans(q0, q2, q3);
            lemma_queue_extended_max_trans(q0, q3, q4);
            lemma_queue_extended_max_trans(q0, q4, q5);
            lemma_queue_extended_max_trans(q0, q5, q6);
            lemma_queue_extended_max_trans(q0, q6, q7);
            if evaluated.opaque && self.light_update_queue.spec_contains(position)
                && !pre.light_update_queue.spec_contains(position) {
                assert(!on_ray(position, position, 1, 0, 0, range as int));
                assert(!on_ray(position, position, -1, 0, 0, range as int));
                assert(!on_ray(position, position, 0, 1, 0, range as int));
                assert(!on_ray(position, position, 0, -1, 0, range as int));
                assert(!on_ray(position, position, 0, 0, 1, range as int));
                assert(!on_ray(position, position, 0, 0, -1, range as int));
                assert(false);
            }
            if evaluated.opaque {
                assert(self.notifications@ =~= old(self).notifications@ + seq![
                    SpaceChange::Lighting(position),
                    SpaceChange::Block(position),
                ]);
            } else {
                assert(self.notifications@ =~= old(self).notifications@ + seq![
                    SpaceChange::Block(position),
                ]);
            }
            assert forall|q: GridPoint|
                self.grid.spec_contains(q) && q != position && #[trigger] on_axis_within(
                    position,
                    q,
                    self.light_range(),
                ) implies self.light_update_queue.spec_contains(q) by {
                if q.y == position.y && q.z == position.z && q.x > position.x {
                    let k = q.x - position.x;
                    assert(ray_step(position, q, 1, 0, 0) == k) by (nonlinear_arith)
                        requires
                            k == q.x - position.x,
                            q.y == position.y,
                            q.z == position.z,
                    ;
                    assert(on_ray(position, q, 1, 0, 0, range as int));
                } else if q.y == position.y && q.z == position.z && q.x < position.x {
                    let k = position.x - q.x;
                    assert(ray_step(position, q, -1, 0, 0) == k) by (nonlinear_arith)
                        requires
                            k == position.x - q.x,
                            q.y == position.y,
                            q.z == position.z,
                    ;
                    assert(on_ray(position, q, -1, 0, 0, range as int));
                } else if q.x == position.x && q.z == position.z && q.y > position.y {
                    let k = q.y - position.y;
                    assert(ray_step(position, q, 0, 1, 0) == k) by (nonlinear_arith)
                        requires
                            k == q.y - position.y,
                            q.x == position.x,
                            q.z == position.z,
                    ;
                    assert(on_ray(position, q, 0, 1, 0, range as int));
                } else if q.x == position.x && q.z == position.z && q.y < position.y {
                    let k = position.y - q.y;
                    assert(ray_step(position, q, 0, -1, 0) == k) by (nonlinear_arith)
                        requires
                            k == position.y - q.y,
                            q.x == position.x,
                            q.z == position.z,
                    ;
                    assert(on_ray(position, q, 0, -1, 0, range as int));
                } else if q.x == position.x && q.y == position.y && q.z > position.z {
                    let k = q.z - position.z;
                    assert(ray_step(position, q, 0, 0, 1) == k) by (nonlinear_arith)
                        requires
                            k == q.z - position.z,
                            q.x == position.x,
                            q.y == position.y,
                    ;
                    assert(on_ray(position, q, 0, 0, 1, range as int));
                } else {
                    let k = position.z - q.z;
                    assert(ray_step(position, q, 0, 0, -1) == k) by (nonlinear_arith)
                        requires
                            k == position.z - q.z,
                            q.x == position.x,
                            q.y == position.y,
                    ;
                    assert(on_ray(position, q, 0, 0, -1, range as int));
                }
            }
        }
    }

    /// The iteration order of the bulk operations over a region: x-major,
    /// then y, then z.
    pub open spec fn visit_order_before(p: GridPoint, q: GridPoint) -> bool {
        p.x < q.x || (p.x == q.x && (p.y < q.y || (p.y == q.y && p.z < q.z)))
    }

    /// Whether the change log of `post` extends that of `pre`.
    pub open spec fn extends_notifications(pre: Space, post: Space) -> bool {
        &&& post.notifications@.len() >= pre.notifications@.len()
        &&& post.notifications@.subrange(0, pre.notifications@.len() as int) == pre.notifications@
    }

    /// Replace the block in this space at the given position.
    ///
    /// Returns `Ok(true)` when the cell changed and `Ok(false)` when it
    /// already held an equal block (a no-op, not an error). Fails with
    /// `OutOfBounds` outside the grid, with `EvalBlock` when a new block
    /// value cannot be evaluated, and with `TooManyBlocks` when the index
    /// space is exhausted; on any failure the space is left exactly as it
    /// was.
    ///
    /// When the sole occupant of an index is replaced by a brand-new block
    /// value, that index is reused in place, so consumers caching per-index
    /// data see no renumbering; a block value already interned elsewhere
    /// reassigns the cell to the existing index instead.
    /// The in-place branch of [`Space::set`]: the cell is the sole occupant
    /// of its index and the new block value is not interned anywhere, so the
    /// entry is replaced under the same index.
    #[verifier::spinoff_prover]
    #[verifier::rlimit(100)]
    fn set_in_place(
        &mut self,
        position: GridPoint,
        contents_index: usize,
        block: &Block,
    ) -> (r: Result<bool, SetCubeError>)
        requires
            old(self).wf(),
            old(self).grid.spec_contains(position),
            contents_index == old(self).grid.spec_index_of(position),
            old(self).spec_block_at(position) != block@,
            old(self).block_data@[old(self).contents@[contents_index as int] as int]@.count == 1,
            old(self).no_live_block(block@),
        ensures
            final(self).wf(),
            final(self).grid == old(self).grid,
            final(self).physics == old(self).physics,
            final(self).packed_sky_color == old(self).packed_sky_color,
            r is Err ==> *final(self) == *old(self),
            spec_evaluate(block@) is Err ==> r == Err::<bool, SetCubeError>(
                SetCubeError::EvalBlock(spec_evaluate(block@)->Err_0),
            ),
            spec_evaluate(block@) is Ok ==> r == Ok::<bool, SetCubeError>(true),
            r == Ok::<bool, SetCubeError>(true) ==> {
                &&& final(self).spec_block_at(position) == block@
                &&& forall|c: GridPoint|
                    c != position ==> final(self).spec_block_at(c) == old(self).spec_block_at(c)
                &&& final(self).contents@ == old(self).contents@
                &&& final(self).block_data@.len() == old(self).block_data@.len()
                &&& final(self).block_data@[old(self).contents@[contents_index as int] as int]@.block
                    == block@
                &&& final(self).block_data@[old(self).contents@[contents_index as int] as int]@.count
                    == 1
                &&& Space::extends_notifications(*old(self), *final(self))
                &&& final(self).notifications@.len() > old(self).notifications@.len()
                &&& final(self).notifications@.last() == SpaceChange::Block(position)
                &&& final(self).notifications@[old(self).notifications@.len() as int]
                    == SpaceChange::Number(old(self).contents@[contents_index as int])
                &&& final(self).physics.light is Rays ==> {
                    &&& (final(self).spec_opaque_at(position) ==> final(self).lighting@ == old(self).lighting@.update(
                        old(self).grid.spec_index_of(position),
                        spec_opaque_light(),
                    ) && final(self).notifications@[final(self).notifications@.len() - 2]
                        == SpaceChange::Lighting(position))
                    &&& (!final(self).spec_opaque_at(position) ==> final(self).lighting == old(self).lighting && final(self).light_update_queue.spec_contains(position))
                    &&& forall|q: GridPoint|
                        final(self).grid.spec_contains(q) && q != position && #[trigger]
                            on_axis_within(position, q, old(self).light_range())
                            ==> final(self).light_update_queue.spec_contains(q)
                    &&& forall|c: GridPoint|
                        old(self).light_update_queue.spec_contains(c)
                            ==> final(self).light_update_queue.spec_contains(c)
                    &&& queue_extended_max(
                        old(self).light_update_queue@,
                        final(self).light_update_queue@,
                    )
                    &&& (final(self).spec_opaque_at(position) ==> (final(self).light_update_queue.spec_contains(position) <==> old(self).light_update_queue.spec_contains(position)))
                }
                &&& final(self).physics.light is Disabled ==> final(self).lighting == old(self).lighting && final(self).light_update_queue == old(self).light_update_queue
            },
    {
        proof {
            lemma_index_in_range(self.grid, position);
        }
        let old_block_index = self.contents[contents_index];
        let ghost pre = *self;
        let ghost ki = contents_index as int;
        let ghost oi = old_block_index as int;
        let evaluated = match block.evaluate() {
            Ok(e) => e,
            Err(e) => {
                return Err(SetCubeError::EvalBlock(e));
            },
        };
        self.block_data.set(
            old_block_index as usize,
            SpaceBlockData { block: block.clone(), count: 1, evaluated },
        );
        self.notifications.push(SpaceChange::Number(old_block_index));
        proof {
            lemma_set_table_wf_inplace(pre, *self, position, ki, oi, block@);
        }
        let ghost tabled = *self;
        self.side_effects_of_set(position, contents_index);
        proof {
            assert(self.table_wf());
            lemma_set_light_wf(pre, *self, position, ki);
            assert(self.light_wf());
            assert(self.spec_block_at(position) == block@);
            assert(forall|c: GridPoint|
                c != position ==> self.spec_block_at(c) == pre.spec_block_at(c));
            assert(self.contents@ == pre.contents@);
            assert(Space::extends_notifications(pre, *self)) by {
                assert(self.notifications@.subrange(0, pre.notifications@.len() as int)
                    =~= pre.notifications@);
            }
            assert(self.notifications@.len() > pre.notifications@.len());
            assert(self.notifications@.last() == SpaceChange::Block(position));
        }
        Ok(true)
    }

    /// The general branch of [`Space::set`]: find or allocate an index for
    /// the new block, move the cell's reference from the old index to it,
    /// and tombstone the old entry when this was its last use.
    #[verifier::spinoff_prover]
    #[verifier::rlimit(100)]
    fn set_reassign(
        &mut self,
        position: GridPoint,
        contents_index: usize,
        block: &Block,
    ) -> (r: Result<bool, SetCubeError>)
        requires
            old(self).wf(),
            old(self).grid.spec_contains(position),
            contents_index == old(self).grid.spec_index_of(position),
            old(self).spec_block_at(position) != block@,
        ensures
            final(self).wf(),
            final(self).grid == old(self).grid,
            final(self).physics == old(self).physics,
            final(self).packed_sky_color == old(self).packed_sky_color,
            r is Err ==> *final(self) == *old(self),
            r is Ok ==> r == Ok::<bool, SetCubeError>(true),
            (r matches Err(SetCubeError::EvalBlock(..))) ==> old(self).no_live_block(block@)
                && spec_evaluate(block@) is Err && r == Err::<bool, SetCubeError>(
                SetCubeError::EvalBlock(spec_evaluate(block@)->Err_0),
            ),
            old(self).no_live_block(block@) && spec_evaluate(block@) is Err && !(old(self).no_free_slot() && old(self).block_data@.len() == u16::MAX) ==> (r matches Err(
                SetCubeError::EvalBlock(..),
            )),
            (r matches Err(SetCubeError::TooManyBlocks)) <==> (old(self).no_live_block(block@)
                && old(self).no_free_slot() && old(self).block_data@.len() == u16::MAX),
            !(r matches Err(SetCubeError::OutOfBounds { .. })),
            r == Ok::<bool, SetCubeError>(true) ==> {
                let oi = old(self).contents@[contents_index as int] as int;
                &&& final(self).spec_block_at(position) == block@
                &&& forall|c: GridPoint|
                    c != position ==> final(self).spec_block_at(c) == old(self).spec_block_at(c)
                &&& final(self).contents@.len() == old(self).contents@.len()
                &&& final(self).block_data@.len() <= old(self).block_data@.len() + 1
                &&& forall|j: int|
                    0 <= j < old(self).block_data@.len() && (#[trigger] old(self).block_data@[j]@.count) > 0 && old(self).block_data@[j]@.block == block@
                        ==> final(self).contents@[contents_index as int] == j
                &&& final(self).block_data@[oi]@.count == old(self).block_data@[oi]@.count - 1
                &&& (old(self).block_data@[oi]@.count == 1 ==> final(self).block_data@[oi]@.block
                    == air_snapshot() && final(self).block_data@[oi]@.evaluated
                    == air_evaluated())
                &&& (old(self).no_live_block(block@) ==> {
                    let ni = final(self).contents@[contents_index as int] as int;
                    &&& final(self).notifications@[old(self).notifications@.len() as int]
                        == SpaceChange::Number(final(self).contents@[contents_index as int])
                    &&& (ni < old(self).block_data@.len() ==> old(self).block_data@[ni]@.count
                        == 0 && forall|j: int|
                        0 <= j < ni ==> (#[trigger] old(self).block_data@[j]@.count) > 0)
                    &&& (ni >= old(self).block_data@.len() ==> ni == old(self).block_data@.len()
                        && old(self).no_free_slot())
                })
                &&& Space::extends_notifications(*old(self), *final(self))
                &&& final(self).notifications@.len() > old(self).notifications@.len()
                &&& final(self).notifications@.last() == SpaceChange::Block(position)
                &&& final(self).physics.light is Rays ==> {
                    &&& (final(self).spec_opaque_at(position) ==> final(self).lighting@ == old(self).lighting@.update(
                        old(self).grid.spec_index_of(position),
                        spec_opaque_light(),
                    ) && final(self).notifications@[final(self).notifications@.len() - 2]
                        == SpaceChange::Lighting(position))
                    &&& (!final(self).spec_opaque_at(position) ==> final(self).lighting == old(self).lighting && final(self).light_update_queue.spec_contains(position))
                    &&& forall|q: GridPoint|
                        final(self).grid.spec_contains(q) && q != position && #[trigger]
                            on_axis_within(position, q, old(self).light_range())
                            ==> final(self).light_update_queue.spec_contains(q)
                    &&& forall|c: GridPoint|
                        old(self).light_update_queue.spec_contains(c)
                            ==> final(self).light_update_queue.spec_contains(c)
                    &&& queue_extended_max(
                        old(self).light_update_queue@,
                        final(self).light_update_queue@,
                    )
                    &&& (final(self).spec_opaque_at(position) ==> (final(self).light_update_queue.spec_contains(position) <==> old(self).light_update_queue.spec_contains(position)))
                }
                &&& final(self).physics.light is Disabled ==> final(self).lighting == old(self).lighting && final(self).light_update_queue == old(self).light_update_queue
            },
    {
        proof {
            lemma_index_in_range(self.grid, position);
        }
        let old_block_index = self.contents[contents_index];
        let ghost pre = *self;
        let ghost ki = contents_index as int;
        let ghost oi = old_block_index as int;
        proof {
            lemma_occurrences_positive(pre.contents@, old_block_index, ki);
        }
        let new_block_index = match self.ensure_block_index(block) {
            Ok(i) => i,
            Err(e) => {
                return Err(e);
            },
        };
        let ghost mid = *self;
        let ghost ni = new_block_index as int;
        proof {
            assert(oi != ni) by {
                if pre.has_live_block(block@) {
                    assert(mid.block_data@[ni]@.block == block@);
                    assert(pre.block_data@[oi]@.block == pre.spec_block_at(position));
                } else {
                    if oi == ni {
                        assert(mid.block_data@[ni]@.count == 0);
                        assert(pre.spec_count_or_zero(oi) >= 1);
                    }
                }
            }
        }
        // Decrement the count of the old block, tombstoning its entry when
        // this was the last use.
        let old_count = self.block_data[old_block_index as usize].count;
        proof {
            assert(self.block_data@[oi] == pre.block_data@[oi]);
            assert(pre.block_data@[oi]@.count == occurrences(pre.contents@, old_block_index));
            assert(old_count >= 1);
        }
        if old_count == 1 {
            self.block_data.set(
                old_block_index as usize,
                SpaceBlockData {
                    block: Block::air(),
                    count: 0,
                    evaluated: EvaluatedBlock {
                        color: crate::block::Rgba { red: 0, green: 0, blue: 0, alpha: 0 },
                        opaque: false,
                        visible: false,
                    },
                },
            );
        } else {
            let kept = self.block_data[old_block_index as usize].block.clone();
            let kept_eval = self.block_data[old_block_index as usize].evaluated;
            self.block_data.set(
                old_block_index as usize,
                SpaceBlockData { block: kept, count: old_count - 1, evaluated: kept_eval },
            );
        }
        // Increment the count of the new block.
        let new_count = self.block_data[new_block_index as usize].count;
        proof {
            lemma_occurrences_lt_len(pre.contents@, new_block_index, ki);
        }
        let kept = self.block_data[new_block_index as usize].block.clone();
        let kept_eval = self.block_data[new_block_index as usize].evaluated;
        self.block_data.set(
            new_block_index as usize,
            SpaceBlockData { block: kept, count: new_count + 1, evaluated: kept_eval },
        );
        // Write the actual cell change.
        self.contents.set(contents_index, new_block_index);
        proof {
            lemma_set_table_wf_general(pre, mid, *self, position, ki, oi, ni, block@);
        }
        self.side_effects_of_set(position, contents_index);
        proof {
            lemma_set_light_wf(pre, *self, position, ki);
            assert(Space::extends_notifications(pre, *self)) by {
                assert(self.notifications@.subrange(0, pre.notifications@.len() as int)
                    =~= pre.notifications@);
            }
        }
        Ok(true)
    }

    /// Replace the block in this space at the given position.
    ///
    /// Returns `Ok(true)` when the cell changed and `Ok(false)` when it
    /// already held an equal block (a no-op, not an error). Fails with
    /// `OutOfBounds` outside the grid, with `EvalBlock` when a new block
    /// value cannot be evaluated, and with `TooManyBlocks` when the index
    /// space is exhausted; on any failure the space is left exactly as it
    /// was.
    ///
    /// When the sole occupant of an index is replaced by a brand-new block
    /// value, that index is reused in place, so consumers caching per-index
    /// data see no renumbering; a block value already interned elsewhere
    /// reassigns the cell to the existing index instead.
    pub fn set(&mut self, position: GridPoint, block: &Block) -> (r: Result<bool, SetCubeError>)
        requires
            old(self).wf(),
        ensures
            final(self).wf(),
            final(self).grid == old(self).grid,
            final(self).physics == old(self).physics,
            final(self).packed_sky_color == old(self).packed_sky_color,
            r is Err ==> *final(self) == *old(self),
            r == Ok::<bool, SetCubeError>(false) ==> *final(self) == *old(self),
            (r matches Err(SetCubeError::OutOfBounds { .. })) <==> !old(self).grid.spec_contains(
                position,
            ),
            !old(self).grid.spec_contains(position) ==> r == Err::<bool, SetCubeError>(
                SetCubeError::OutOfBounds {
                    modification: Grid {
                        lower_bounds: position,
                        sizes: GridVector { x: 1, y: 1, z: 1 },
                    },
                    space_bounds: old(self).grid,
                },
            ),
            old(self).grid.spec_contains(position) && old(self).spec_block_at(position) == block@
                ==> r == Ok::<bool, SetCubeError>(false),
            r == Ok::<bool, SetCubeError>(false) ==> old(self).grid.spec_contains(position)
                && old(self).spec_block_at(position) == block@,
            r == Ok::<bool, SetCubeError>(true) ==> old(self).grid.spec_contains(position) && old(self).spec_block_at(position) != block@,
            (r matches Err(SetCubeError::EvalBlock(..))) ==> old(self).no_live_block(block@)
                && spec_evaluate(block@) is Err && r == Err::<bool, SetCubeError>(
                SetCubeError::EvalBlock(spec_evaluate(block@)->Err_0),
            ),
            old(self).grid.spec_contains(position) && old(self).spec_block_at(position) != block@
                && old(self).no_live_block(block@) && spec_evaluate(block@) is Err && (old(self).block_data@[old(self).contents@[old(self).grid.spec_index_of(position)] as int]@.count
                == 1 || !(old(self).no_free_slot() && old(self).block_data@.len() == u16::MAX))
                ==> (r matches Err(SetCubeError::EvalBlock(..))),
            (r matches Err(SetCubeError::TooManyBlocks)) ==> old(self).no_live_block(block@)
                && old(self).no_free_slot() && old(self).block_data@.len() == u16::MAX,
            old(self).grid.spec_contains(position) && old(self).spec_block_at(position) != block@
                && old(self).no_live_block(block@) && old(self).block_data@[old(self).contents@[old(self).grid.spec_index_of(position)] as int]@.count
                != 1 && old(self).no_free_slot() && old(self).block_data@.len() == u16::MAX
                ==> r == Err::<bool, SetCubeError>(SetCubeError::TooManyBlocks),
            old(self).grid.spec_contains(position) && old(self).spec_block_at(position) != block@
                && (old(self).has_live_block(block@) || (spec_evaluate(block@) is Ok && (old(self).block_data@[old(self).contents@[old(self).grid.spec_index_of(position)] as int]@.count
                == 1 || !old(self).no_free_slot() || old(self).block_data@.len() < u16::MAX)))
                ==> r == Ok::<bool, SetCubeError>(true),
            final(self).block_data@.len() <= old(self).block_data@.len() + 1,
            r == Ok::<bool, SetCubeError>(true) ==> {
                let ki = old(self).grid.spec_index_of(position);
                let oi = old(self).contents@[ki] as int;
                &&& final(self).spec_block_at(position) == block@
                &&& forall|c: GridPoint|
                    c != position ==> final(self).spec_block_at(c) == old(self).spec_block_at(c)
                &&& final(self).contents@.len() == old(self).contents@.len()
                &&& (old(self).block_data@[oi]@.count == 1 && old(self).no_live_block(block@)
                    ==> final(self).contents@ == old(self).contents@ && final(self).block_data@.len() == old(self).block_data@.len() && final(self).block_data@[oi]@.block == block@ && final(self).block_data@[oi]@.count == 1)
                &&& (!(old(self).block_data@[oi]@.count == 1 && old(self).no_live_block(block@))
                    ==> final(self).block_data@[oi]@.count == old(self).block_data@[oi]@.count
                    - 1 && (old(self).block_data@[oi]@.count == 1 ==> final(self).block_data@[oi]@.block == air_snapshot() && final(self).block_data@[oi]@.evaluated
                    == air_evaluated()))
                &&& forall|j: int|
                    0 <= j < old(self).block_data@.len() && (#[trigger] old(self).block_data@[j]@.count) > 0 && old(self).block_data@[j]@.block == block@
                        ==> final(self).contents@[ki] == j
                &&& (old(self).no_live_block(block@) ==> final(self).notifications@[old(self).notifications@.len() as int] == SpaceChange::Number(final(self).contents@[ki]))
                &&& (old(self).no_live_block(block@) && old(self).block_data@[oi]@.count != 1
                    ==> {
                    let ni = final(self).contents@[ki] as int;
                    &&& (ni < old(self).block_data@.len() ==> old(self).block_data@[ni]@.count
                        == 0 && forall|j: int|
                        0 <= j < ni ==> (#[trigger] old(self).block_data@[j]@.count) > 0)
                    &&& (ni >= old(self).block_data@.len() ==> ni == old(self).block_data@.len()
                        && old(self).no_free_slot())
                })
                &&& Space::extends_notifications(*old(self), *final(self))
                &&& final(self).notifications@.len() > old(self).notifications@.len()
                &&& final(self).notifications@.last() == SpaceChange::Block(position)
                &&& final(self).physics.light is Rays ==> {
                    &&& (final(self).spec_opaque_at(position) ==> final(self).lighting@ == old(self).lighting@.update(ki, spec_opaque_light()) && final(self).notifications@[
                    final(self).notifications@.len() - 2] == SpaceChange::Lighting(position))
                    &&& (!final(self).spec_opaque_at(position) ==> final(self).lighting == old(self).lighting && final(self).light_update_queue.spec_contains(position))
                    &&& forall|q: GridPoint|
                        final(self).grid.spec_contains(q) && q != position && #[trigger]
                            on_axis_within(position, q, old(self).light_range())
                            ==> final(self).light_update_queue.spec_contains(q)
                    &&& forall|c: GridPoint|
                        old(self).light_update_queue.spec_contains(c)
                            ==> final(self).light_update_queue.spec_contains(c)
                    &&& queue_extended_max(
                        old(self).light_update_queue@,
                        final(self).light_update_queue@,
                    )
                    &&& (final(self).spec_opaque_at(position) ==> (final(self).light_update_queue.spec_contains(position) <==> old(self).light_update_queue.spec_contains(position)))
                }
                &&& final(self).physics.light is Disabled ==> final(self).lighting == old(self).lighting && final(self).light_update_queue == old(self).light_update_queue
            },
    {
        let contents_index = match self.grid.index(position) {
            Some(ci) => ci,
            None => {
                return Err(
                    SetCubeError::OutOfBounds {
                        modification: Grid {
                            lower_bounds: position,
                            sizes: GridVector { x: 1, y: 1, z: 1 },
                        },
                        space_bounds: self.grid,
                    },
                );
            },
        };
        proof {
            lemma_index_in_range(self.grid, position);
        }
        let old_block_index = self.contents[contents_index];
        if self.block_data[old_block_index as usize].block == *block {
            return Ok(false);
        }
        if self.block_data[old_block_index as usize].count == 1 {
            if self.find_block_index(block).is_none() {
                let r = self.set_in_place(position, contents_index, block);
                proof {
                    if old(self).has_live_block(block@) {
                        let w = choose|w: int|
                            0 <= w < old(self).block_data@.len() && (#[trigger] old(self).block_data@[w]@.count) > 0 && old(self).block_data@[w]@.block
                                == block@;
                        assert(old(self).no_live_block(block@));
                    }
                }
                return r;
            }
        }
        self.set_reassign(position, contents_index, block)
    }

    /// Walk one sample ray from `cube` and report whether it escapes the
    /// grid before striking an opaque cell or running out of range.
    fn walk_ray(&self, cube: GridPoint, dx: i32, dy: i32, dz: i32, range: u16) -> (r: bool)
        requires
            self.table_wf(),
            self.grid.spec_contains(cube),
            dx * dx + dy * dy + dz * dz == 1,
            -1 <= dx <= 1 && -1 <= dy <= 1 && -1 <= dz <= 1,
        ensures
            r == self.ray_reaches_sky(
                cube.x as int,
                cube.y as int,
                cube.z as int,
                dx as int,
                dy as int,
                dz as int,
                range as nat,
            ),
    {
        let lx: i64 = self.grid.lower_bounds().x as i64;
        let ly: i64 = self.grid.lower_bounds().y as i64;
        let lz: i64 = self.grid.lower_bounds().z as i64;
        let ux: i64 = self.grid.upper_bounds().x as i64;
        let uy: i64 = self.grid.upper_bounds().y as i64;
        let uz: i64 = self.grid.upper_bounds().z as i64;
        let mut cx: i64 = cube.x as i64;
        let mut cy: i64 = cube.y as i64;
        let mut cz: i64 = cube.z as i64;
        let mut k: u16 = 0;
        while k < range
            invariant
                0 <= k <= range,
                self.table_wf(),
                lx == self.grid.lower().x as int && ly == self.grid.lower().y as int && lz
                    == self.grid.lower().z as int,
                ux == self.grid.lower().x + self.grid.size().x && uy == self.grid.lower().y
                    + self.grid.size().y && uz == self.grid.lower().z + self.grid.size().z,
                dx * dx + dy * dy + dz * dz == 1,
                -1 <= dx <= 1 && -1 <= dy <= 1 && -1 <= dz <= 1,
                lx - 1 <= cx < ux + 1 && ly - 1 <= cy < uy + 1 && lz - 1 <= cz < uz + 1,
                self.spec_contains_xyz(cx as int, cy as int, cz as int),
                self.ray_reaches_sky(
                    cube.x as int,
                    cube.y as int,
                    cube.z as int,
                    dx as int,
                    dy as int,
                    dz as int,
                    range as nat,
                ) == self.ray_reaches_sky(
                    cx as int,
                    cy as int,
                    cz as int,
                    dx as int,
                    dy as int,
                    dz as int,
                    (range - k) as nat,
                ),
            decreases range - k,
        {
            let nx: i64 = cx + dx as i64;
            let ny: i64 = cy + dy as i64;
            let nz: i64 = cz + dz as i64;
            if !(nx >= lx && nx < ux && ny >= ly && ny < uy && nz >= lz && nz < uz) {
                proof {
                    assert(!self.spec_contains_xyz(nx as int, ny as int, nz as int));
                }
                return true;
            }
            let next = GridPoint { x: nx as i32, y: ny as i32, z: nz as i32 };
            proof {
                assert(next.x as int == nx && next.y as int == ny && next.z as int == nz);
                assert(self.grid.spec_contains(next));
                lemma_index_in_range(self.grid, next);
            }
            let flat = match self.grid.index(next) {
                Some(f) => f,
                None => {
                    proof {
                        assert(false);
                    }
                    return false;
                },
            };
            if self.block_data[self.contents[flat] as usize].evaluated.opaque {
                proof {
                    assert(self.spec_opaque_xyz(nx as int, ny as int, nz as int));
                }
                return false;
            }
            proof {
                assert(!self.spec_opaque_xyz(nx as int, ny as int, nz as int));
            }
            cx = nx;
            cy = ny;
            cz = nz;
            k = k + 1;
        }
        false
    }

    /// Derive the light value of an in-bounds cube from the current
    /// contents with the axis-ray kernel.
    fn compute_cube_light(&self, cube: GridPoint) -> (r: PackedLight)
        requires
            self.table_wf(),
            self.physics.light is Rays,
            self.grid.spec_contains(cube),
        ensures
            r == self.spec_light_of(cube),
    {
        proof {
            lemma_index_in_range(self.grid, cube);
        }
        let flat = match self.grid.index(cube) {
            Some(f) => f,
            None => {
                proof {
                    assert(false);
                }
                return PackedLight::opaque();
            },
        };
        if self.block_data[self.contents[flat] as usize].evaluated.opaque {
            return PackedLight::opaque();
        }
        let range: u16 = match self.physics.light {
            LightPhysics::Disabled => 0,
            LightPhysics::Rays { maximum_distance } => maximum_distance,
        };
        let mut n: u16 = 0;
        if self.walk_ray(cube, -1, 0, 0, range) {
            n = n + 1;
        }
        if self.walk_ray(cube, 1, 0, 0, range) {
            n = n + 1;
        }
        if self.walk_ray(cube, 0, -1, 0, range) {
            n = n + 1;
        }
        if self.walk_ray(cube, 0, 1, 0, range) {
            n = n + 1;
        }
        if self.walk_ray(cube, 0, 0, -1, range) {
            n = n + 1;
        }
        if self.walk_ray(cube, 0, 0, 1, range) {
            n = n + 1;
        }
        proof {
            assert(n as int == self.spec_sky_ray_count(cube));
        }
        let sky = self.physics.sky_color;
        proof {
            assert(n as u32 * sky.red as u32 <= 1530 && n as u32 * sky.green as u32 <= 1530 && n
                as u32 * sky.blue as u32 <= 1530) by (nonlinear_arith)
                requires
                    n <= 6,
                    sky.red <= 255,
                    sky.green <= 255,
                    sky.blue <= 255,
            ;
        }
        PackedLight::valued(
            Rgb {
                red: ((n as u32 * sky.red as u32) / 6) as u8,
                green: ((n as u32 * sky.green as u32) / 6) as u8,
                blue: ((n as u32 * sky.blue as u32) / 6) as u8,
            },
        )
    }

    /// Recompute the light of up to `budget` queued cells, highest priority
    /// first, storing each derived value and recording a lighting change
    /// event for every cell whose stored value changed.
    pub fn update_lighting_from_queue(&mut self, budget: usize) -> (r: LightUpdatesInfo)
        requires
            old(self).wf(),
        ensures
            final(self).wf(),
            final(self).grid == old(self).grid,
            final(self).block_data == old(self).block_data,
            final(self).contents == old(self).contents,
            final(self).physics == old(self).physics,
            final(self).packed_sky_color == old(self).packed_sky_color,
            Space::extends_notifications(*old(self), *final(self)),
            r.update_count <= budget,
            final(self).light_update_queue@.len() == old(self).light_update_queue@.len()
                - r.update_count,
            r.update_count == if budget <= old(self).light_update_queue@.len() {
                budget as int
            } else {
                old(self).light_update_queue@.len() as int
            },
            r.queue_count == final(self).light_update_queue@.len(),
            forall|i: int|
                0 <= i < final(self).light_update_queue@.len() ==> (#[trigger] final(self).light_update_queue@[i]).priority <= r.max_queue_priority,
            final(self).light_update_queue@.len() == 0 ==> r.max_queue_priority == 0,
    {
        let ghost pre = *self;
        let mut updates: usize = 0;
        proof {
            assert(pre.notifications@.subrange(0, pre.notifications@.len() as int)
                =~= pre.notifications@);
        }
        while updates < budget && self.light_update_queue.len() != 0
            invariant
                old(self).wf(),
                self.wf(),
                self.grid == old(self).grid,
                self.block_data == old(self).block_data,
                self.contents == old(self).contents,
                self.physics == old(self).physics,
                self.packed_sky_color == old(self).packed_sky_color,
                Space::extends_notifications(*old(self), *self),
                updates <= budget,
                updates <= old(self).light_update_queue@.len(),
                self.light_update_queue@.len() == old(self).light_update_queue@.len() - updates,
            decreases budget - updates,
        {
            let ghost before = *self;
            let request = match self.light_update_queue.pop_max() {
                Some(request) => request,
                None => {
                    proof {
                        assert(false);
                    }
                    return LightUpdatesInfo {
                        update_count: 0,
                        queue_count: 0,
                        max_queue_priority: 0,
                    };
                },
            };
            proof {
                let i = choose|i: int|
                    0 <= i < before.light_update_queue@.len()
                        && before.light_update_queue@[i] == request
                        && self.light_update_queue@ == before.light_update_queue@.remove(i);
                assert(before.grid.spec_contains(request.cube));
                lemma_index_in_range(self.grid, request.cube);
                assert forall|j: int|
                    0 <= j < self.light_update_queue@.len() implies self.grid.spec_contains(
                    (#[trigger] self.light_update_queue@[j]).cube,
                ) && self.light_update_queue@[j].priority >= 1 by {
                    if j < i {
                        assert(self.light_update_queue@[j] == before.light_update_queue@[j]);
                    } else {
                        assert(self.light_update_queue@[j] == before.light_update_queue@[j + 1]);
                    }
                }
            }
            let cube = request.cube;
            let flat = match self.grid.index(cube) {
                Some(f) => f,
                None => {
                    proof {
                        assert(false);
                    }
                    return LightUpdatesInfo {
                        update_count: 0,
                        queue_count: 0,
                        max_queue_priority: 0,
                    };
                },
            };
            let ghost mid = *self;
            let value = self.compute_cube_light(cube);
            if !(self.lighting[flat] == value) {
                self.lighting.set(flat, value);
                self.notifications.push(SpaceChange::Lighting(cube));
            }
            proof {
                let cur = *self;
                lemma_light_congruent(mid, cur, cube);
                assert(value == cur.spec_light_of(cube));
                assert forall|c: GridPoint|
                    #[trigger] cur.grid.spec_contains(c)
                        implies cur.light_update_queue.spec_contains(c) || cur.lighting@[
                    cur.grid.spec_index_of(c)] == cur.spec_light_of(c) by {
                    lemma_light_congruent(before, cur, c);
                    if c == cube {
                        assert(cur.lighting@[cur.grid.spec_index_of(c)] == cur.spec_light_of(c));
                    } else {
                        lemma_index_in_range(cur.grid, c);
                        if cur.grid.spec_index_of(c) == flat as int {
                            lemma_index_injective(cur.grid, c, cube);
                        }
                        if !cur.light_update_queue.spec_contains(c) {
                            assert(!before.light_update_queue.spec_contains(c));
                            assert(before.lighting@[before.grid.spec_index_of(c)]
                                == before.spec_light_of(c));
                        }
                    }
                }
                assert(self.light_wf());
                assert(Space::extends_notifications(*old(self), *self)) by {
                    assert(self.notifications@.subrange(
                        0,
                        old(self).notifications@.len() as int,
                    ) =~= old(self).notifications@);
                }
            }
            updates = updates + 1;
        }
        let queue_count = self.light_update_queue.len();
        let max_queue_priority = self.light_update_queue.max_priority();
        LightUpdatesInfo { update_count: updates, queue_count, max_queue_priority }
    }

    /// Advance time in the space: drain up to `budget` queued light
    /// recomputations and report statistics.
    pub fn step(&mut self, budget: usize) -> (r: SpaceStepInfo)
        requires
            old(self).wf(),
        ensures
            final(self).wf(),
            final(self).grid == old(self).grid,
            final(self).block_data == old(self).block_data,
            final(self).contents == old(self).contents,
            final(self).physics == old(self).physics,
            final(self).packed_sky_color == old(self).packed_sky_color,
            Space::extends_notifications(*old(self), *final(self)),
            r.spaces == 1,
            r.light.update_count <= budget,
            r.light.update_count == if budget <= old(self).light_update_queue@.len() {
                budget as int
            } else {
                old(self).light_update_queue@.len() as int
            },
            final(self).light_update_queue@.len() == old(self).light_update_queue@.len()
                - r.light.update_count,
            r.light.queue_count == final(self).light_update_queue@.len(),
    {
        let light = self.update_lighting_from_queue(budget);
        SpaceStepInfo { spaces: 1, light }
    }

    /// Perform lighting updates until there are none left to do, or until
    /// the highest remaining priority is at most `epsilon`; returns the
    /// number of updates performed. Zero means to run to full completion,
    /// after which every cell's stored light is the value the ray kernel
    /// derives from the current contents.
    pub fn evaluate_light(&mut self, epsilon: u8) -> (total: usize)
        requires
            old(self).wf(),
        ensures
            final(self).wf(),
            final(self).grid == old(self).grid,
            final(self).block_data == old(self).block_data,
            final(self).contents == old(self).contents,
            final(self).physics == old(self).physics,
            final(self).packed_sky_color == old(self).packed_sky_color,
            Space::extends_notifications(*old(self), *final(self)),
            total == old(self).light_update_queue@.len() - final(self).light_update_queue@.len(),
            final(self).light_update_queue@.len() == 0 || forall|i: int|
                0 <= i < final(self).light_update_queue@.len() ==> (#[trigger] final(self).light_update_queue@[i]).priority <= epsilon,
            epsilon == 0 ==> final(self).light_update_queue@.len() == 0,
            final(self).physics.light is Rays && final(self).light_update_queue@.len() == 0
                ==> forall|cube: GridPoint|
                #[trigger] final(self).grid.spec_contains(cube) ==> final(self).lighting@[final(self).grid.spec_index_of(cube)] == final(self).spec_light_of(cube),
    {
        let initial_len = self.light_update_queue.len();
        proof {
            assert(old(self).notifications@.subrange(0, old(self).notifications@.len() as int)
                =~= old(self).notifications@);
        }
        loop
            invariant_except_break
                self.wf(),
                self.grid == old(self).grid,
                self.block_data == old(self).block_data,
                self.contents == old(self).contents,
                self.physics == old(self).physics,
                self.packed_sky_color == old(self).packed_sky_color,
                Space::extends_notifications(*old(self), *self),
                initial_len == old(self).light_update_queue@.len(),
                self.light_update_queue@.len() <= initial_len,
            ensures
                self.wf(),
                self.grid == old(self).grid,
                self.block_data == old(self).block_data,
                self.contents == old(self).contents,
                self.physics == old(self).physics,
                self.packed_sky_color == old(self).packed_sky_color,
                Space::extends_notifications(*old(self), *self),
                initial_len == old(self).light_update_queue@.len(),
                self.light_update_queue@.len() <= initial_len,
                self.light_update_queue@.len() == 0 || forall|i: int|
                    0 <= i < self.light_update_queue@.len() ==> (#[trigger] self.light_update_queue@[i]).priority <= epsilon,
            decreases self.light_update_queue@.len(),
        {
            if self.light_update_queue.len() == 0 {
                break ;
            }
            if self.light_update_queue.max_priority() <= epsilon {
                break ;
            }
            let ghost before = *self;
            let _ = self.update_lighting_from_queue(256);
            proof {
                lemma_extends_trans(*old(self), before, *self);
            }
        }
        proof {
            if epsilon == 0 && self.light_update_queue@.len() != 0 {
                assert(self.light_update_queue@[0].priority >= 1);
            }
        }
        initial_len - self.light_update_queue.len()
    }

    /// Perform lighting updates in drain passes until none are left to do or
    /// the highest remaining priority is at most `epsilon`, reporting one
    /// [`LightUpdatesInfo`] per pass (at least one) for observability, in
    /// pass order. The last report describes the final queue state.
    pub fn evaluate_light_passes(&mut self, epsilon: u8) -> (passes: Vec<LightUpdatesInfo>)
        requires
            old(self).wf(),
        ensures
            final(self).wf(),
            final(self).grid == old(self).grid,
            final(self).block_data == old(self).block_data,
            final(self).contents == old(self).contents,
            final(self).physics == old(self).physics,
            final(self).packed_sky_color == old(self).packed_sky_color,
            Space::extends_notifications(*old(self), *final(self)),
            passes@.len() >= 1,
            passes@.last().queue_count == final(self).light_update_queue@.len(),
            final(self).light_update_queue@.len() == 0 || forall|i: int|
                0 <= i < final(self).light_update_queue@.len() ==> (#[trigger] final(self).light_update_queue@[i]).priority <= epsilon,
            epsilon == 0 ==> final(self).light_update_queue@.len() == 0,
    {
        let mut passes: Vec<LightUpdatesInfo> = Vec::new();
        proof {
            assert(old(self).notifications@.subrange(0, old(self).notifications@.len() as int)
                =~= old(self).notifications@);
        }
        loop
            invariant_except_break
                self.wf(),
                self.grid == old(self).grid,
                self.block_data == old(self).block_data,
                self.contents == old(self).contents,
                self.physics == old(self).physics,
                self.packed_sky_color == old(self).packed_sky_color,
                Space::extends_notifications(*old(self), *self),
            ensures
                self.wf(),
                self.grid == old(self).grid,
                self.block_data == old(self).block_data,
                self.contents == old(self).contents,
                self.physics == old(self).physics,
                self.packed_sky_color == old(self).packed_sky_color,
                Space::extends_notifications(*old(self), *self),
                passes@.len() >= 1,
                passes@.last().queue_count == self.light_update_queue@.len(),
                self.light_update_queue@.len() == 0 || forall|i: int|
                    0 <= i < self.light_update_queue@.len() ==> (#[trigger] self.light_update_queue@[i]).priority <= epsilon,
            decreases self.light_update_queue@.len(),
        {
            let ghost before = *self;
            let info = self.update_lighting_from_queue(256);
            passes.push(info);
            proof {
                lemma_extends_trans(*old(self), before, *self);
            }
            if info.queue_count == 0 {
                break ;
            }
            if info.max_queue_priority <= epsilon {
                break ;
            }
        }
        proof {
            if epsilon == 0 && self.light_update_queue@.len() != 0 {
                assert(self.light_update_queue@[0].priority >= 1);
            }
        }
        passes
    }

    /// Sets the physics parameters. When the lighting mode changes, the
    /// stored light data is rebuilt: cleared under disabled light, and
    /// reset with every cell queued for recomputation under ray-based
    /// light.
    pub fn set_physics(&mut self, physics: SpacePhysics)
        requires
            old(self).wf(),
        ensures
            final(self).wf(),
            final(self).grid == old(self).grid,
            final(self).block_data == old(self).block_data,
            final(self).contents == old(self).contents,
            final(self).physics == physics,
            final(self).notifications == old(self).notifications,
            old(self).physics == physics ==> final(self).lighting == old(self).lighting && final(self).light_update_queue == old(self).light_update_queue,
    {
        if self.physics == physics {
            return ;
        }
        self.physics = physics;
        self.packed_sky_color = physics.sky_color;
        match physics.light {
            LightPhysics::Disabled => {
                self.lighting = Vec::new();
                self.light_update_queue.clear();
                proof {
                    assert(self.lighting@ =~= Seq::<PackedLight>::empty());
                }
            },
            LightPhysics::Rays { .. } => {
                let volume = self.grid.volume();
                let mut lighting: Vec<PackedLight> = Vec::new();
                let mut k: usize = 0;
                while k < volume
                    invariant
                        k <= volume,
                        lighting@.len() == k,
                    decreases volume - k,
                {
                    lighting.push(PackedLight::uninitialized());
                    k = k + 1;
                }
                self.lighting = lighting;
                self.light_update_queue.clear();
                self.enqueue_all_cells();
            },
        }
    }

    /// Replace every block in `region` with the given block. A region that
    /// extends outside the grid is rejected before any change is made. When
    /// the region is the whole grid the replacement reinitializes the space
    /// in one step; otherwise the cells are replaced one at a time, stopping
    /// at the first failure (which may leave some cells already replaced).
    #[verifier::spinoff_prover]
    #[verifier::rlimit(100)]
    pub fn fill_uniform(&mut self, region: Grid, block: &Block) -> (r: Result<(), SetCubeError>)
        requires
            old(self).wf(),
            region.wf(),
        ensures
            final(self).wf(),
            final(self).grid == old(self).grid,
            final(self).physics == old(self).physics,
            final(self).packed_sky_color == old(self).packed_sky_color,
            (r matches Err(SetCubeError::OutOfBounds { .. })) <==> !(forall|p: GridPoint|
                region.spec_contains(p) ==> old(self).grid.spec_contains(p)),
            !(forall|p: GridPoint| region.spec_contains(p) ==> old(self).grid.spec_contains(p))
                ==> r == Err::<(), SetCubeError>(
                SetCubeError::OutOfBounds { modification: region, space_bounds: old(self).grid },
            ) && *final(self) == *old(self),
            forall|p: GridPoint|
                !region.spec_contains(p) ==> final(self).spec_block_at(p) == old(self).spec_block_at(p),
            r is Ok ==> forall|p: GridPoint|
                region.spec_contains(p) ==> final(self).spec_block_at(p) == block@,
            (r matches Err(SetCubeError::EvalBlock(..))) ==> spec_evaluate(block@) is Err && r
                == Err::<(), SetCubeError>(
                SetCubeError::EvalBlock(spec_evaluate(block@)->Err_0),
            ),
            (forall|p: GridPoint| region.spec_contains(p) ==> old(self).grid.spec_contains(p))
                && spec_evaluate(block@) is Ok && old(self).block_data@.len() < u16::MAX ==> r
                == Ok::<(), SetCubeError>(()),
            region == old(self).grid && spec_evaluate(block@) is Err ==> r == Err::<
                (),
                SetCubeError,
            >(SetCubeError::EvalBlock(spec_evaluate(block@)->Err_0)) && *final(self) == *old(self),
            region == old(self).grid && spec_evaluate(block@) is Ok ==> r == Ok::<
                (),
                SetCubeError,
            >(()),
            region == old(self).grid && r is Ok ==> final(self).block_data@.len() == 1 && final(self).block_data@[0]@.block == block@ && final(self).block_data@[0]@.count == old(self).grid.spec_volume() && final(self).notifications@ == old(self).notifications@.push(
                SpaceChange::EveryBlock,
            ),
            r is Err && !(r matches Err(SetCubeError::OutOfBounds { .. })) ==> exists|
                fc: GridPoint,
            |
                {
                    &&& #[trigger] region.spec_contains(fc)
                    &&& forall|p: GridPoint|
                        #[trigger] region.spec_contains(p) && Space::visit_order_before(p, fc)
                            ==> final(self).spec_block_at(p) == block@
                    &&& forall|p: GridPoint|
                        #[trigger] region.spec_contains(p) && !Space::visit_order_before(p, fc)
                            ==> final(self).spec_block_at(p) == old(self).spec_block_at(p)
                },
    {
        if !self.grid.contains_grid(region) {
            return Err(
                SetCubeError::OutOfBounds { modification: region, space_bounds: self.grid },
            );
        }
        if self.grid == region {
            let whole = self.fill_uniform_all(block);
            proof {
                if whole is Err {
                    let fc = region.lower();
                    assert(region.spec_contains(fc));
                }
            }
            return whole;
        }
        let lx = region.lower_bounds().x;
        let ly = region.lower_bounds().y;
        let lz = region.lower_bounds().z;
        let ux = region.upper_bounds().x;
        let uy = region.upper_bounds().y;
        let uz = region.upper_bounds().z;
        let ghost pre = *self;
        let mut x = lx;
        while x != ux
            invariant
                lx == region.lower().x && ly == region.lower().y && lz == region.lower().z,
                ux == region.lower().x + region.size().x && uy == region.lower().y
                    + region.size().y && uz == region.lower().z + region.size().z,
                region.wf(),
                pre == *old(self),
                lx <= x <= ux,
                self.wf(),
                self.grid == pre.grid,
                self.physics == pre.physics,
                self.packed_sky_color == pre.packed_sky_color,
                forall|p: GridPoint|
                    !region.spec_contains(p) ==> self.spec_block_at(p) == pre.spec_block_at(p),
                forall|p: GridPoint|
                    region.spec_contains(p) && p.x < x ==> self.spec_block_at(p) == block@,
                forall|p: GridPoint|
                    #[trigger] region.spec_contains(p) && p.x >= x ==> self.spec_block_at(p)
                        == pre.spec_block_at(p),
                forall|p: GridPoint| region.spec_contains(p) ==> pre.grid.spec_contains(p),
                self.has_live_block(block@) || self.block_data@.len() == pre.block_data@.len(),
                region != pre.grid,
            decreases ux - x,
        {
            let mut y = ly;
            while y != uy
                invariant
                    lx == region.lower().x && ly == region.lower().y && lz == region.lower().z,
                    ux == region.lower().x + region.size().x && uy == region.lower().y
                        + region.size().y && uz == region.lower().z + region.size().z,
                    region.wf(),
                    pre == *old(self),
                    lx <= x < ux,
                    ly <= y <= uy,
                    self.wf(),
                    self.grid == pre.grid,
                    self.physics == pre.physics,
                    self.packed_sky_color == pre.packed_sky_color,
                    forall|p: GridPoint|
                        !region.spec_contains(p) ==> self.spec_block_at(p) == pre.spec_block_at(p),
                    forall|p: GridPoint|
                        region.spec_contains(p) && (p.x < x || (p.x == x && p.y < y))
                            ==> self.spec_block_at(p) == block@,
                    forall|p: GridPoint|
                        #[trigger] region.spec_contains(p) && (p.x > x || (p.x == x && p.y >= y))
                            ==> self.spec_block_at(p) == pre.spec_block_at(p),
                    forall|p: GridPoint| region.spec_contains(p) ==> pre.grid.spec_contains(p),
                    self.has_live_block(block@) || self.block_data@.len()
                        == pre.block_data@.len(),
                    region != pre.grid,
                decreases uy - y,
            {
                let mut z = lz;
                while z != uz
                    invariant
                        lx == region.lower().x && ly == region.lower().y && lz
                            == region.lower().z,
                        ux == region.lower().x + region.size().x && uy == region.lower().y
                            + region.size().y && uz == region.lower().z + region.size().z,
                        region.wf(),
                        pre == *old(self),
                        lx <= x < ux,
                        ly <= y < uy,
                        lz <= z <= uz,
                        self.wf(),
                        self.grid == pre.grid,
                        self.physics == pre.physics,
                        self.packed_sky_color == pre.packed_sky_color,
                        forall|p: GridPoint|
                            !region.spec_contains(p) ==> self.spec_block_at(p)
                                == pre.spec_block_at(p),
                        forall|p: GridPoint|
                            region.spec_contains(p) && (p.x < x || (p.x == x && p.y < y) || (p.x
                                == x && p.y == y && p.z < z)) ==> self.spec_block_at(p) == block@,
                        forall|p: GridPoint|
                            #[trigger] region.spec_contains(p) && (p.x > x || (p.x == x && (p.y
                                > y || (p.y == y && p.z >= z)))) ==> self.spec_block_at(p)
                                == pre.spec_block_at(p),
                        forall|p: GridPoint| region.spec_contains(p) ==> pre.grid.spec_contains(p),
                        self.has_live_block(block@) || self.block_data@.len()
                            == pre.block_data@.len(),
                        region != pre.grid,
                    decreases uz - z,
                {
                    let cube = GridPoint { x, y, z };
                    let ghost at_start = *self;
                    proof {
                        assert(region.spec_contains(cube));
                    }
                    let changed = match self.set(cube, block) {
                        Ok(changed) => changed,
                        Err(e) => {
                            proof {
                                assert(!(e matches SetCubeError::OutOfBounds { .. }));
                                if spec_evaluate(block@) is Ok && pre.block_data@.len()
                                    < u16::MAX {
                                    assert(false);
                                }
                                assert(*self == at_start);
                                assert(region.spec_contains(cube));
                                assert(forall|p: GridPoint|
                                    #[trigger] region.spec_contains(p)
                                        && Space::visit_order_before(p, cube)
                                        ==> self.spec_block_at(p) == block@);
                                assert(forall|p: GridPoint|
                                    #[trigger] region.spec_contains(p)
                                        && !Space::visit_order_before(p, cube)
                                        ==> self.spec_block_at(p) == pre.spec_block_at(p));
                            }
                            return Err(e);
                        },
                    };
                    proof {
                        if !changed {
                            assert(*self == at_start);
                            assert(at_start.spec_block_at(cube) == block@);
                        }
                        assert(self.spec_block_at(cube) == block@);
                        assert(self.has_live_block(block@)) by {
                            lemma_index_in_range(self.grid, cube);
                            let flat = self.grid.spec_index_of(cube);
                            let idx = self.contents@[flat] as int;
                            lemma_occurrences_positive(
                                self.contents@,
                                self.contents@[flat],
                                flat,
                            );
                            assert(self.block_data@[idx]@.count >= 1);
                            assert(self.block_data@[idx]@.block == block@);
                        }
                        assert forall|p: GridPoint|
                            !region.spec_contains(p) implies self.spec_block_at(p)
                            == pre.spec_block_at(p) by {
                            assert(p != cube);
                            assert(self.spec_block_at(p) == at_start.spec_block_at(p));
                        }
                        assert forall|p: GridPoint|
                            region.spec_contains(p) && (p.x < x || (p.x == x && p.y < y) || (p.x
                                == x && p.y == y && p.z < z + 1)) implies self.spec_block_at(p)
                            == block@ by {
                            if p != cube {
                                assert(self.spec_block_at(p) == at_start.spec_block_at(p));
                            }
                        }
                        assert forall|p: GridPoint|
                            #[trigger] region.spec_contains(p) && (p.x > x || (p.x == x && (p.y
                                > y || (p.y == y && p.z >= z + 1)))) implies self.spec_block_at(
                            p,
                        ) == pre.spec_block_at(p) by {
                            assert(p != cube);
                            assert(self.spec_block_at(p) == at_start.spec_block_at(p));
                        }
                    }
                    z = z + 1;
                }
                proof {
                    assert((y - ly) * (uz - lz) + (uz - lz) == ((y + 1) - ly) * (uz - lz))
                        by (nonlinear_arith);
                }
                y = y + 1;
            }
            proof {
                assert((x - lx) * ((uy - ly) * (uz - lz)) + (uy - ly) * (uz - lz) == ((x + 1)
                    - lx) * ((uy - ly) * (uz - lz))) by (nonlinear_arith);
            }
            x = x + 1;
        }
        Ok(())
    }

    /// Replace blocks in `region` with a block computed by the function.
    ///
    /// The function may return `None` to leave a cell unchanged. A region
    /// extending outside the grid is always rejected before any change is
    /// made; any other failure stops the operation at the first failing
    /// cell, potentially leaving a prefix of cells already replaced.
    #[verifier::spinoff_prover]
    #[verifier::rlimit(100)]
    pub fn fill<F: Fn(GridPoint) -> Option<Block>>(
        &mut self,
        region: Grid,
        function: F,
    ) -> (r: Result<(), SetCubeError>)
        requires
            old(self).wf(),
            region.wf(),
            forall|p: GridPoint| region.spec_contains(p) ==> function.requires((p,)),
        ensures
            final(self).wf(),
            final(self).grid == old(self).grid,
            final(self).physics == old(self).physics,
            final(self).packed_sky_color == old(self).packed_sky_color,
            (r matches Err(SetCubeError::OutOfBounds { .. })) <==> !(forall|p: GridPoint|
                region.spec_contains(p) ==> old(self).grid.spec_contains(p)),
            !(forall|p: GridPoint| region.spec_contains(p) ==> old(self).grid.spec_contains(p))
                ==> r == Err::<(), SetCubeError>(
                SetCubeError::OutOfBounds { modification: region, space_bounds: old(self).grid },
            ) && *final(self) == *old(self),
            forall|p: GridPoint|
                !region.spec_contains(p) ==> final(self).spec_block_at(p) == old(self).spec_block_at(p),
            (r matches Err(SetCubeError::EvalBlock(..))) ==> exists|pw: GridPoint, bw: Block|
                {
                    &&& region.spec_contains(pw)
                    &&& #[trigger] function.ensures((pw,), Some(bw))
                    &&& spec_evaluate(bw@) is Err
                    &&& r == Err::<(), SetCubeError>(
                        SetCubeError::EvalBlock(spec_evaluate(bw@)->Err_0),
                    )
                },
            (r matches Err(SetCubeError::TooManyBlocks)) ==> exists|pw: GridPoint, bw: Block|
                region.spec_contains(pw) && #[trigger] function.ensures((pw,), Some(bw)),
            (forall|pq: GridPoint, ret: Option<Block>|
                region.spec_contains(pq) && #[trigger] function.ensures((pq,), ret) ==> (
                ret is None || spec_evaluate(ret->0@) is Ok)) && old(self).block_data@.len()
                + region.spec_volume() <= u16::MAX && (forall|p: GridPoint|
                region.spec_contains(p) ==> old(self).grid.spec_contains(p)) ==> r == Ok::<
                (),
                SetCubeError,
            >(()),
            r is Err && (forall|p: GridPoint|
                region.spec_contains(p) ==> old(self).grid.spec_contains(p)) ==> exists|
                fc: GridPoint,
            |
                {
                    &&& #[trigger] region.spec_contains(fc)
                    &&& forall|p: GridPoint|
                        #[trigger] region.spec_contains(p) && Space::visit_order_before(p, fc)
                            ==> exists|ret: Option<Block>|
                            {
                                &&& #[trigger] function.ensures((p,), ret)
                                &&& (ret is None ==> final(self).spec_block_at(p) == old(self).spec_block_at(p))
                                &&& (forall|b: Block|
                                    ret == Some(b) ==> final(self).spec_block_at(p) == b@)
                            }
                    &&& forall|p: GridPoint|
                        #[trigger] region.spec_contains(p) && !Space::visit_order_before(p, fc)
                            ==> final(self).spec_block_at(p) == old(self).spec_block_at(p)
                },
            r is Ok ==> forall|p: GridPoint|
                #[trigger] region.spec_contains(p) ==> exists|ret: Option<Block>|
                    {
                        &&& #[trigger] function.ensures((p,), ret)
                        &&& (ret is None ==> final(self).spec_block_at(p) == old(self).spec_block_at(p))
                        &&& (forall|b: Block|
                            ret == Some(b) ==> final(self).spec_block_at(p) == b@)
                    },
    {
        if !self.grid.contains_grid(region) {
            return Err(
                SetCubeError::OutOfBounds { modification: region, space_bounds: self.grid },
            );
        }
        let lx = region.lower_bounds().x;
        let ly = region.lower_bounds().y;
        let lz = region.lower_bounds().z;
        let ux = region.upper_bounds().x;
        let uy = region.upper_bounds().y;
        let uz = region.upper_bounds().z;
        let ghost pre = *self;
        let mut x = lx;
        while x != ux
            invariant
                lx == region.lower().x && ly == region.lower().y && lz == region.lower().z,
                ux == region.lower().x + region.size().x && uy == region.lower().y
                    + region.size().y && uz == region.lower().z + region.size().z,
                region.wf(),
                pre == *old(self),
                forall|p: GridPoint| region.spec_contains(p) ==> function.requires((p,)),
                lx <= x <= ux,
                self.wf(),
                self.grid == pre.grid,
                self.physics == pre.physics,
                self.packed_sky_color == pre.packed_sky_color,
                forall|p: GridPoint|
                    !region.spec_contains(p) ==> self.spec_block_at(p) == pre.spec_block_at(p),
                forall|p: GridPoint|
                    #[trigger] region.spec_contains(p) && p.x >= x ==> self.spec_block_at(p)
                        == pre.spec_block_at(p),
                forall|p: GridPoint|
                    #[trigger] region.spec_contains(p) && p.x < x ==> exists|ret: Option<Block>|
                        {
                            &&& #[trigger] function.ensures((p,), ret)
                            &&& (ret is None ==> self.spec_block_at(p) == pre.spec_block_at(p))
                            &&& (forall|b: Block|
                                ret == Some(b) ==> self.spec_block_at(p) == b@)
                        },
                forall|p: GridPoint| region.spec_contains(p) ==> pre.grid.spec_contains(p),
                self.block_data@.len() <= pre.block_data@.len() + (x - lx) * ((uy - ly) * (uz
                    - lz)),
            decreases ux - x,
        {
            let mut y = ly;
            while y != uy
                invariant
                    lx == region.lower().x && ly == region.lower().y && lz == region.lower().z,
                    ux == region.lower().x + region.size().x && uy == region.lower().y
                        + region.size().y && uz == region.lower().z + region.size().z,
                    region.wf(),
                    pre == *old(self),
                    forall|p: GridPoint| region.spec_contains(p) ==> function.requires((p,)),
                    lx <= x < ux,
                    ly <= y <= uy,
                    self.wf(),
                    self.grid == pre.grid,
                    self.physics == pre.physics,
                    self.packed_sky_color == pre.packed_sky_color,
                    forall|p: GridPoint|
                        !region.spec_contains(p) ==> self.spec_block_at(p) == pre.spec_block_at(
                            p,
                        ),
                    forall|p: GridPoint|
                        #[trigger] region.spec_contains(p) && (p.x > x || (p.x == x && p.y >= y))
                            ==> self.spec_block_at(p) == pre.spec_block_at(p),
                    forall|p: GridPoint|
                        #[trigger] region.spec_contains(p) && (p.x < x || (p.x == x && p.y < y))
                            ==> exists|ret: Option<Block>|
                            {
                                &&& #[trigger] function.ensures((p,), ret)
                                &&& (ret is None ==> self.spec_block_at(p) == pre.spec_block_at(
                                    p,
                                ))
                                &&& (forall|b: Block|
                                    ret == Some(b) ==> self.spec_block_at(p) == b@)
                            },
                    forall|p: GridPoint| region.spec_contains(p) ==> pre.grid.spec_contains(p),
                    self.block_data@.len() <= pre.block_data@.len() + (x - lx) * ((uy - ly) * (uz
                        - lz)) + (y - ly) * (uz - lz),
                decreases uy - y,
            {
                let mut z = lz;
                while z != uz
                    invariant
                        lx == region.lower().x && ly == region.lower().y && lz
                            == region.lower().z,
                        ux == region.lower().x + region.size().x && uy == region.lower().y
                            + region.size().y && uz == region.lower().z + region.size().z,
                        region.wf(),
                        pre == *old(self),
                        forall|p: GridPoint| region.spec_contains(p) ==> function.requires((p,)),
                        lx <= x < ux,
                        ly <= y < uy,
                        lz <= z <= uz,
                        self.wf(),
                        self.grid == pre.grid,
                        self.physics == pre.physics,
                        self.packed_sky_color == pre.packed_sky_color,
                        forall|p: GridPoint|
                            !region.spec_contains(p) ==> self.spec_block_at(p)
                                == pre.spec_block_at(p),
                        forall|p: GridPoint|
                            #[trigger] region.spec_contains(p) && (p.x > x || (p.x == x && (p.y > y
                                || (p.y == y && p.z >= z)))) ==> self.spec_block_at(p)
                                == pre.spec_block_at(p),
                        forall|p: GridPoint|
                            #[trigger] region.spec_contains(p) && (p.x < x || (p.x == x && (p.y < y
                                || (p.y == y && p.z < z)))) ==> exists|ret: Option<Block>|
                                {
                                    &&& #[trigger] function.ensures((p,), ret)
                                    &&& (ret is None ==> self.spec_block_at(p)
                                        == pre.spec_block_at(p))
                                    &&& (forall|b: Block|
                                        ret == Some(b) ==> self.spec_block_at(p) == b@)
                                },
                        forall|p: GridPoint| region.spec_contains(p) ==> pre.grid.spec_contains(
                            p,
                        ),
                        self.block_data@.len() <= pre.block_data@.len() + (x - lx) * ((uy - ly)
                            * (uz - lz)) + (y - ly) * (uz - lz) + (z - lz),
                    decreases uz - z,
                {
                    let cube = GridPoint { x, y, z };
                    let ghost at_start = *self;
                    proof {
                        assert(region.spec_contains(cube));
                    }
                    let picked = function(cube);
                    match picked {
                        Some(b) => {
                            let changed = match self.set(cube, &b) {
                                Ok(changed) => changed,
                                Err(e) => {
                                    proof {
                                        assert(!(e matches SetCubeError::OutOfBounds { .. }));
                                        assert(function.ensures((cube,), Some(b)));
                                        assert(*self == at_start);
                                        assert(region.spec_contains(cube));
                                        assert(forall|p: GridPoint|
                                            #[trigger] region.spec_contains(p)
                                                && !Space::visit_order_before(p, cube)
                                                ==> self.spec_block_at(p) == pre.spec_block_at(
                                                p,
                                            ));
                                        lemma_index_in_range(region, cube);
                                        assert(((cube.x - lx) * (uy - ly) + (cube.y - ly)) * (uz
                                            - lz) + (cube.z - lz) == (cube.x - lx) * ((uy - ly)
                                            * (uz - lz)) + (cube.y - ly) * (uz - lz) + (cube.z
                                            - lz)) by (nonlinear_arith);
                                        assert(at_start.block_data@.len() < pre.block_data@.len()
                                            + region.spec_volume());
                                        if (forall|pq: GridPoint, ret: Option<Block>|
                                            region.spec_contains(pq) && #[trigger]
                                                function.ensures((pq,), ret) ==> (ret is None
                                                || spec_evaluate(ret->0@) is Ok))
                                            && pre.block_data@.len() + region.spec_volume()
                                            <= u16::MAX {
                                            assert(spec_evaluate(b@) is Ok);
                                            assert(at_start.block_data@.len() < u16::MAX);
                                            assert(false);
                                        }
                                    }
                                    return Err(e);
                                },
                            };
                            proof {
                                if !changed {
                                    assert(*self == at_start);
                                    assert(at_start.spec_block_at(cube) == b@);
                                }
                                assert(self.spec_block_at(cube) == b@);
                            }
                        },
                        None => (),
                    }
                    proof {
                        assert forall|p: GridPoint|
                            #[trigger] region.spec_contains(p) && (p.x < x || (p.x == x && (p.y < y
                                || (p.y == y && p.z < z + 1)))) implies exists|
                            ret: Option<Block>,
                        |
                            {
                                &&& #[trigger] function.ensures((p,), ret)
                                &&& (ret is None ==> self.spec_block_at(p) == pre.spec_block_at(
                                    p,
                                ))
                                &&& (forall|b: Block|
                                    ret == Some(b) ==> self.spec_block_at(p) == b@)
                            } by {
                            if p == cube {
                                assert(function.ensures((cube,), picked));
                                if picked is None {
                                    assert(self.spec_block_at(cube) == at_start.spec_block_at(
                                        cube,
                                    ));
                                }
                            } else {
                                let ret0 = choose|ret: Option<Block>|
                                    {
                                        &&& #[trigger] function.ensures((p,), ret)
                                        &&& (ret is None ==> at_start.spec_block_at(p)
                                            == pre.spec_block_at(p))
                                        &&& (forall|b: Block|
                                            ret == Some(b) ==> at_start.spec_block_at(p) == b@)
                                    };
                                assert(self.spec_block_at(p) == at_start.spec_block_at(p));
                            }
                        }
                        assert forall|p: GridPoint|
                            !region.spec_contains(p) implies self.spec_block_at(p)
                            == pre.spec_block_at(p) by {
                            assert(p != cube);
                            assert(self.spec_block_at(p) == at_start.spec_block_at(p));
                        }
                        assert forall|p: GridPoint|
                            #[trigger] region.spec_contains(p) && (p.x > x || (p.x == x && (p.y > y
                                || (p.y == y && p.z >= z + 1)))) implies self.spec_block_at(p)
                            == pre.spec_block_at(p) by {
                            assert(p != cube);
                            assert(self.spec_block_at(p) == at_start.spec_block_at(p));
                        }
                    }
                    z = z + 1;
                }
                proof {
                    assert((y - ly) * (uz - lz) + (uz - lz) == ((y + 1) - ly) * (uz - lz))
                        by (nonlinear_arith);
                }
                y = y + 1;
            }
            proof {
                assert((x - lx) * ((uy - ly) * (uz - lz)) + (uy - ly) * (uz - lz) == ((x + 1)
                    - lx) * ((uy - ly) * (uz - lz))) by (nonlinear_arith);
            }
            x = x + 1;
        }
        Ok(())
    }

    /// The atomic whole-grid case of [`Space::fill_uniform`]: reinitialize
    /// the block table with the single given block and queue every cell for
    /// light recomputation.
    fn fill_uniform_all(&mut self, block: &Block) -> (r: Result<(), SetCubeError>)
        requires
            old(self).wf(),
        ensures
            final(self).wf(),
            final(self).grid == old(self).grid,
            final(self).physics == old(self).physics,
            final(self).packed_sky_color == old(self).packed_sky_color,
            r is Err ==> *final(self) == *old(self),
            (r matches Err(SetCubeError::EvalBlock(..))) <==> spec_evaluate(block@) is Err,
            spec_evaluate(block@) is Err ==> r == Err::<(), SetCubeError>(
                SetCubeError::EvalBlock(spec_evaluate(block@)->Err_0),
            ),
            spec_evaluate(block@) is Ok ==> r == Ok::<(), SetCubeError>(()),
            !(r matches Err(SetCubeError::OutOfBounds { .. })),
            !(r matches Err(SetCubeError::TooManyBlocks)),
            r is Ok ==> forall|p: GridPoint|
                old(self).grid.spec_contains(p) ==> final(self).spec_block_at(p) == block@,
            r is Ok ==> final(self).block_data@.len() == 1 && final(self).block_data@[0]@.block
                == block@ && final(self).block_data@[0]@.count == old(self).grid.spec_volume()
                && final(self).notifications@ == old(self).notifications@.push(
                SpaceChange::EveryBlock,
            ),
    {
        let evaluated = match block.evaluate() {
            Ok(e) => e,
            Err(e) => {
                return Err(SetCubeError::EvalBlock(e));
            },
        };
        let volume = self.grid.volume();
        let mut contents: Vec<BlockIndex> = Vec::new();
        let mut k: usize = 0;
        while k < volume
            invariant
                k <= volume,
                contents@.len() == k,
                forall|i: int| 0 <= i < k ==> contents@[i] == 0,
            decreases volume - k,
        {
            contents.push(0);
            k = k + 1;
        }
        self.contents = contents;
        let mut block_data: Vec<SpaceBlockData> = Vec::new();
        block_data.push(SpaceBlockData { block: block.clone(), count: volume, evaluated });
        self.block_data = block_data;
        self.notifications.push(SpaceChange::EveryBlock);
        match self.physics.light {
            LightPhysics::Disabled => (),
            LightPhysics::Rays { .. } => {
                let mut lighting: Vec<PackedLight> = Vec::new();
                let mut k: usize = 0;
                while k < volume
                    invariant
                        k <= volume,
                        lighting@.len() == k,
                    decreases volume - k,
                {
                    lighting.push(PackedLight::uninitialized());
                    k = k + 1;
                }
                self.lighting = lighting;
                self.light_update_queue.clear();
                self.enqueue_all_cells();
            },
        }
        proof {
            lemma_volume_bounds(self.grid);
            assert(self.contents@ =~= Seq::new(
                self.grid.spec_volume() as nat,
                |i: int| 0u16,
            ));
            lemma_occurrences_constant(self.grid.spec_volume() as nat, 0u16, 0u16);
            assert(self.table_wf());
            assert(self.light_wf());
            assert forall|p: GridPoint|
                old(self).grid.spec_contains(p) implies self.spec_block_at(p) == block@ by {
                lemma_index_in_range(self.grid, p);
            }
        }
        Ok(())
    }

    /// Returns all distinct block values found in the space, in block-index
    /// order, not counting the canonical empty block: cells never placed (or
    /// cleared back to empty) contribute nothing.
    pub fn distinct_blocks(&self) -> (r: Vec<Block>)
        requires
            self.wf(),
        ensures
            r@.map_values(|b: Block| b@) == live_blocks(
                self.block_data@.map_values(|d: SpaceBlockData| d@),
            ),
    {
        let ghost all = self.block_data@.map_values(|d: SpaceBlockData| d@);
        let mut blocks: Vec<Block> = Vec::new();
        let n = self.block_data.len();
        let mut i: usize = 0;
        proof {
            assert(all.subrange(0, 0) =~= Seq::<BlockDataSnapshot>::empty());
            assert(blocks@.map_values(|b: Block| b@) =~= live_blocks(all.subrange(0, 0)));
        }
        while i < n
            invariant
                i <= n,
                n == self.block_data@.len(),
                self.wf(),
                all == self.block_data@.map_values(|d: SpaceBlockData| d@),
                blocks@.map_values(|b: Block| b@) == live_blocks(all.subrange(0, i as int)),
            decreases n - i,
        {
            let ghost prefix = all.subrange(0, i as int);
            let air = Block::air();
            if self.block_data[i].count > 0 && !(self.block_data[i].block == air) {
                blocks.push(self.block_data[i].block.clone());
            }
            proof {
                assert(all.subrange(0, i + 1).drop_last() =~= prefix);
                assert(all.subrange(0, i + 1).last() == all[i as int]);
                if all[i as int].count > 0 && all[i as int].block != air_snapshot() {
                    assert(blocks@.map_values(|b: Block| b@) =~= live_blocks(
                        prefix,
                    ).push(all[i as int].block));
                } else {
                    assert(blocks@.map_values(|b: Block| b@) =~= live_blocks(prefix));
                }
            }
            i = i + 1;
        }
        proof {
            assert(all.subrange(0, n as int) =~= all);
        }
        blocks
    }

    /// Hand out the change events recorded since the last call, oldest
    /// first, emptying the log. Collaborators that registered interest poll
    /// this after mutating calls; delivery is synchronous and in-process.
    pub fn drain_changes(&mut self) -> (r: Vec<SpaceChange>)
        ensures
            r == old(self).notifications,
            final(self).notifications@.len() == 0,
            final(self).grid == old(self).grid,
            final(self).block_data == old(self).block_data,
            final(self).contents == old(self).contents,
            final(self).lighting == old(self).lighting,
            final(self).light_update_queue == old(self).light_update_queue,
            final(self).physics == old(self).physics,
            final(self).packed_sky_color == old(self).packed_sky_color,
            old(self).wf() ==> final(self).wf(),
    {
        let mut taken: Vec<SpaceChange> = Vec::new();
        core::mem::swap(&mut taken, &mut self.notifications);
        proof {
            if old(self).wf() {
                assert(self.table_wf());
                if self.physics.light is Rays {
                    assert forall|cube: GridPoint|
                        #[trigger] self.grid.spec_contains(cube)
                            implies self.light_update_queue.spec_contains(cube)
                        || self.lighting@[self.grid.spec_index_of(cube)] == self.spec_light_of(
                        cube,
                    ) by {
                        lemma_light_congruent(*old(self), *self, cube);
                    }
                }
                assert(self.light_wf());
            }
        }
        taken
    }
}


/// Re-establishes the block-table invariant after an in-place replacement:
/// the sole occupant of entry `oi` was replaced by the brand-new block value
/// `b` without touching the contents array.
proof fn lemma_set_table_wf_inplace(
    pre: Space,
    cur: Space,
    position: GridPoint,
    ki: int,
    oi: int,
    b: BlockSnapshot,
)
    requires
        pre.table_wf(),
        pre.grid.spec_contains(position),
        ki == pre.grid.spec_index_of(position),
        0 <= oi < pre.block_data@.len(),
        pre.contents@[ki] as int == oi,
        pre.block_data@[oi]@.count == 1,
        pre.no_live_block(b),
        cur.grid == pre.grid,
        cur.contents == pre.contents,
        cur.block_data@.len() == pre.block_data@.len(),
        cur.block_data@[oi]@.block == b,
        cur.block_data@[oi]@.count == 1,
        spec_evaluate(b) == Ok::<EvaluatedBlock, EvalBlockError>(cur.block_data@[oi]@.evaluated),
        forall|j: int|
            0 <= j < cur.block_data@.len() && j != oi ==> cur.block_data@[j] == pre.block_data@[j],
    ensures
        cur.table_wf(),
        cur.spec_block_at(position) == b,
        forall|c: GridPoint|
            c != position ==> cur.spec_block_at(c) == pre.spec_block_at(c),
        forall|c: GridPoint|
            cur.grid.spec_contains(c) && c != position ==> cur.spec_opaque_at(c)
                == pre.spec_opaque_at(c),
{
    lemma_index_in_range(pre.grid, position);
    assert forall|c: GridPoint| c != position implies cur.spec_block_at(c) == pre.spec_block_at(
        c,
    ) by {
        if cur.grid.spec_contains(c) {
            lemma_index_in_range(pre.grid, c);
            let kc = pre.grid.spec_index_of(c);
            if kc == ki {
                lemma_index_injective(pre.grid, c, position);
            }
            assert(kc != ki);
            if pre.contents@[kc] as int == oi {
                lemma_occurrences_unique(pre.contents@, pre.contents@[ki], kc, ki);
            }
        }
    }
    assert forall|c: GridPoint|
        cur.grid.spec_contains(c) && c != position implies cur.spec_opaque_at(c)
        == pre.spec_opaque_at(c) by {
        lemma_index_in_range(pre.grid, c);
        let kc = pre.grid.spec_index_of(c);
        if kc == ki {
            lemma_index_injective(pre.grid, c, position);
        }
        assert(kc != ki);
        if pre.contents@[kc] as int == oi {
            lemma_occurrences_unique(pre.contents@, pre.contents@[ki], kc, ki);
        }
    }
}

/// Re-establishes the block-table invariant after the general replacement
/// path: entry `ni` (found or freshly filled by the index allocator, as
/// `mid` records) gained the cell at `ki`, and entry `oi` lost it.
proof fn lemma_set_table_wf_general(
    pre: Space,
    mid: Space,
    cur: Space,
    position: GridPoint,
    ki: int,
    oi: int,
    ni: int,
    b: BlockSnapshot,
)
    requires
        pre.table_wf(),
        pre.grid.spec_contains(position),
        ki == pre.grid.spec_index_of(position),
        0 <= oi < pre.block_data@.len(),
        pre.contents@[ki] as int == oi,
        pre.spec_block_at(position) != b,
        ensure_index_post(pre, mid, b, ni),
        mid.contents == pre.contents,
        oi != ni,
        cur.grid == pre.grid,
        cur.contents@ == pre.contents@.update(ki, ni as BlockIndex),
        cur.block_data@.len() == mid.block_data@.len(),
        forall|j: int|
            0 <= j < cur.block_data@.len() && j != oi && j != ni ==> cur.block_data@[j]
                == mid.block_data@[j],
        pre.block_data@[oi]@.count == 1 ==> cur.block_data@[oi]@.block == air_snapshot()
            && cur.block_data@[oi]@.count == 0 && cur.block_data@[oi]@.evaluated
            == air_evaluated(),
        pre.block_data@[oi]@.count != 1 ==> cur.block_data@[oi]@.block == pre.block_data@[oi]@.block
            && cur.block_data@[oi]@.count == pre.block_data@[oi]@.count - 1
            && cur.block_data@[oi]@.evaluated == pre.block_data@[oi]@.evaluated,
        cur.block_data@[ni]@.block == b,
        cur.block_data@[ni]@.count == mid.block_data@[ni]@.count + 1,
        cur.block_data@[ni]@.evaluated == mid.block_data@[ni]@.evaluated,
    ensures
        cur.table_wf(),
        cur.spec_block_at(position) == b,
        forall|c: GridPoint|
            c != position ==> cur.spec_block_at(c) == pre.spec_block_at(c),
        forall|c: GridPoint|
            cur.grid.spec_contains(c) && c != position ==> cur.spec_opaque_at(c)
                == pre.spec_opaque_at(c),
{
    lemma_index_in_range(pre.grid, position);
    let old_index = pre.contents@[ki];
    let new_index = ni as BlockIndex;
    assert(occurrences(pre.contents@, old_index) >= 1) by {
        lemma_occurrences_positive(pre.contents@, old_index, ki);
    }
    // Counts after the single update of the contents array.
    assert forall|i: int|
        0 <= i < cur.block_data@.len() implies (#[trigger] cur.block_data@[i]@.count)
        == occurrences(cur.contents@, i as BlockIndex) by {
        lemma_occurrences_update(pre.contents@, ki, new_index, i as BlockIndex);
        if i >= pre.block_data@.len() {
            // the freshly appended entry
            assert(i == ni);
            lemma_occurrences_none(pre.contents@, new_index);
        } else {
            if i == ni {
                if mid.block_data@[ni]@.count == 0 && pre.spec_count_or_zero(ni) == 0 {
                }
            }
        }
    }
    // Each cell still points at a live entry.
    assert forall|k: int|
        0 <= k < cur.contents@.len() implies (#[trigger] cur.contents@[k])
        < cur.block_data@.len() by {
        if k != ki {
            assert(cur.contents@[k] == pre.contents@[k]);
        }
    }
    // Pairwise distinct live blocks.
    assert forall|i: int, j: int|
        0 <= i < j < cur.block_data@.len() && cur.block_data@[i]@.count > 0
            && cur.block_data@[j]@.count > 0 implies cur.block_data@[i]@.block
        != cur.block_data@[j]@.block by {
        if i == ni || j == ni {
            let other = if i == ni {
                j
            } else {
                i
            };
            if other < pre.block_data@.len() {
                if cur.block_data@[other]@.block == b {
                    if other == oi {
                        // the old entry never holds b: the cell differed
                        if pre.block_data@[oi]@.count != 1 {
                            assert(pre.block_data@[oi]@.block == pre.spec_block_at(position));
                        }
                    } else {
                        assert(cur.block_data@[other] == mid.block_data@[other]);
                        assert(mid.block_data@[other] == pre.block_data@[other]);
                        assert(pre.block_data@[other]@.count > 0);
                        if pre.has_live_block(b) {
                            let w = choose|w: int|
                                0 <= w < pre.block_data@.len() && (#[trigger] pre.block_data@[w]@.count)
                                    > 0 && pre.block_data@[w]@.block == b;
                            assert(mid == pre);
                            assert(pre.block_data@[ni]@.count > 0);
                            if w != ni && w != other {
                                assert(pre.block_data@[w]@.block != pre.block_data@[other]@.block);
                            }
                            assert(pre.block_data@[ni]@.block == b);
                        } else {
                            assert(pre.block_data@[other]@.block != b);
                        }
                    }
                }
            }
        }
    }
    // Freed entries are canonical.
    assert forall|i: int|
        0 <= i < cur.block_data@.len() && (#[trigger] cur.block_data@[i]@.count) == 0
            implies cur.block_data@[i]@.block == air_snapshot() && cur.block_data@[i]@.evaluated
        == air_evaluated() by {
        if i != oi && i != ni {
            assert(cur.block_data@[i] == mid.block_data@[i]);
        }
    }
    // Unchanged blocks elsewhere.
    lemma_index_in_range(pre.grid, position);
    assert forall|c: GridPoint| c != position implies cur.spec_block_at(c) == pre.spec_block_at(
        c,
    ) by {
        if cur.grid.spec_contains(c) {
            lemma_index_in_range(pre.grid, c);
            let kc = pre.grid.spec_index_of(c);
            if kc == ki {
                lemma_index_injective(pre.grid, c, position);
            }
            assert(kc != ki);
            assert(cur.contents@[kc] == pre.contents@[kc]);
            let ic = pre.contents@[kc] as int;
            if ic == oi {
                if pre.block_data@[oi]@.count == 1 {
                    lemma_occurrences_unique(pre.contents@, old_index, kc, ki);
                }
            }
            if ic == ni {
                if pre.no_live_block(b) {
                    assert(mid.block_data@[ni]@.count == 0);
                    assert(pre.spec_count_or_zero(ni) == 0);
                    if ni < pre.block_data@.len() {
                        lemma_occurrences_zero(pre.contents@, new_index);
                    } else {
                        assert(pre.contents@[kc] < pre.block_data@.len());
                    }
                }
            }
        }
    }
    assert forall|c: GridPoint|
        cur.grid.spec_contains(c) && c != position implies cur.spec_opaque_at(c)
        == pre.spec_opaque_at(c) by {
        lemma_index_in_range(pre.grid, c);
        let kc = pre.grid.spec_index_of(c);
        if kc == ki {
            lemma_index_injective(pre.grid, c, position);
        }
        assert(kc != ki);
        assert(cur.contents@[kc] == pre.contents@[kc]);
        let ic = pre.contents@[kc] as int;
        if ic == oi {
            if pre.block_data@[oi]@.count == 1 {
                lemma_occurrences_unique(pre.contents@, old_index, kc, ki);
            }
        }
        if ic == ni {
            if pre.no_live_block(b) {
                assert(mid.block_data@[ni]@.count == 0);
                assert(pre.spec_count_or_zero(ni) == 0);
                if ni < pre.block_data@.len() {
                    lemma_occurrences_zero(pre.contents@, new_index);
                }
            }
        }
    }
}

/// Re-establishes the lighting invariant after a cell change whose side
/// effects have been applied: the changed cell is either stored dark (when
/// opaque) or queued, and every cell whose kernel value could have changed
/// lies on an enqueued axis line.
proof fn lemma_set_light_wf(pre: Space, cur: Space, position: GridPoint, ki: int)
    requires
        pre.wf(),
        pre.grid.spec_contains(position),
        ki == pre.grid.spec_index_of(position),
        cur.grid == pre.grid,
        cur.physics == pre.physics,
        cur.packed_sky_color == pre.packed_sky_color,
        cur.table_wf(),
        forall|c: GridPoint|
            cur.grid.spec_contains(c) && c != position ==> cur.spec_opaque_at(c)
                == pre.spec_opaque_at(c),
        cur.light_update_queue.wf(),
        forall|i: int|
            0 <= i < cur.light_update_queue@.len() ==> cur.grid.spec_contains(
                (#[trigger] cur.light_update_queue@[i]).cube,
            ),
        forall|c: GridPoint|
            pre.light_update_queue.spec_contains(c) ==> cur.light_update_queue.spec_contains(c),
        forall|i: int|
            0 <= i < cur.light_update_queue@.len() ==> (#[trigger] cur.light_update_queue@[i]).priority >= 1,
        cur.physics.light is Disabled ==> cur.lighting == pre.lighting && cur.light_update_queue
            == pre.light_update_queue,
        cur.physics.light is Rays ==> {
            &&& (cur.spec_opaque_at(position) ==> cur.lighting@ == pre.lighting@.update(
                ki,
                spec_opaque_light(),
            ))
            &&& (!cur.spec_opaque_at(position) ==> cur.lighting == pre.lighting
                && cur.light_update_queue.spec_contains(position))
            &&& forall|q: GridPoint|
                cur.grid.spec_contains(q) && q != position && #[trigger] on_axis_within(
                    position,
                    q,
                    cur.light_range(),
                ) ==> cur.light_update_queue.spec_contains(q)
        },
    ensures
        cur.light_wf(),
{
    lemma_index_in_range(pre.grid, position);
    if cur.physics.light is Rays {
        assert forall|cube: GridPoint|
            #[trigger] cur.grid.spec_contains(cube)
                implies cur.light_update_queue.spec_contains(cube) || cur.lighting@[
            cur.grid.spec_index_of(cube)] == cur.spec_light_of(cube) by {
            lemma_index_in_range(pre.grid, cube);
            let kc = pre.grid.spec_index_of(cube);
            if cube == position {
                if cur.spec_opaque_at(position) {
                    assert(cur.lighting@[kc] == spec_opaque_light());
                    assert(cur.spec_light_of(cube) == spec_opaque_light());
                }
            } else {
                if kc == ki {
                    lemma_index_injective(pre.grid, cube, position);
                }
                assert(kc != ki);
                if !on_axis_within(position, cube, cur.light_range()) {
                    if !pre.light_update_queue.spec_contains(cube) {
                        assert(pre.lighting@[kc] == pre.spec_light_of(cube));
                        assert(cur.lighting@[kc] == pre.lighting@[kc]);
                        lemma_light_congruent_except(pre, cur, position, cube);
                        assert(cur.spec_light_of(cube) == pre.spec_light_of(cube));
                    }
                }
            }
        }
    }
}

/// What [`Space::ensure_block_index`] guarantees on success: entry `idx` of
/// `post` interns `b` with its correct cached evaluation; every other entry
/// is untouched; a found entry is returned as is, while a filled slot starts
/// at count zero and is announced as reassigned.
pub open spec fn ensure_index_post(pre: Space, post: Space, b: BlockSnapshot, idx: int) -> bool {
    &&& 0 <= idx < post.block_data@.len()
    &&& post.block_data@[idx]@.block == b
    &&& spec_evaluate(b) == Ok::<EvaluatedBlock, EvalBlockError>(post.block_data@[idx]@.evaluated)
    &&& pre.block_data@.len() <= post.block_data@.len() <= u16::MAX
    &&& forall|j: int|
        0 <= j < post.block_data@.len() && j != idx ==> j < pre.block_data@.len()
            && post.block_data@[j] == pre.block_data@[j]
    &&& post.block_data@[idx]@.count == pre.spec_count_or_zero(idx)
    &&& (pre.has_live_block(b) ==> post == pre && pre.block_data@[idx]@.count > 0)
    &&& (pre.no_live_block(b) ==> post.block_data@[idx]@.count == 0 && post.notifications@
        == pre.notifications@.push(SpaceChange::Number(idx as BlockIndex)))
    &&& (post.block_data@.len() > pre.block_data@.len() ==> post.block_data@.len()
        == pre.block_data@.len() + 1 && idx == pre.block_data@.len())
    &&& (pre.no_live_block(b) && idx < pre.block_data@.len() ==> pre.block_data@[idx]@.count == 0
        && forall|j: int| 0 <= j < idx ==> (#[trigger] pre.block_data@[j]@.count) > 0)
    &&& (idx >= pre.block_data@.len() ==> pre.no_free_slot())
}


/// Extension of change logs is transitive.
pub proof fn lemma_extends_trans(a: Space, b: Space, c: Space)
    requires
        Space::extends_notifications(a, b),
        Space::extends_notifications(b, c),
    ensures
        Space::extends_notifications(a, c),
{
    assert(c.notifications@.subrange(0, a.notifications@.len() as int) =~= a.notifications@) by {
        assert forall|i: int| 0 <= i < a.notifications@.len() implies c.notifications@[i]
            == a.notifications@[i] by {
            assert(b.notifications@[i] == b.notifications@.subrange(
                0,
                a.notifications@.len() as int,
            )[i]);
            assert(c.notifications@[i] == c.notifications@.subrange(
                0,
                b.notifications@.len() as int,
            )[i]);
        }
    }
}

/// The refcount invariant, as it holds in every reachable state (every
/// constructor establishes [`Space::wf`] and every mutating operation
/// preserves it): each entry's count is exactly the number of cells
/// referencing it, each live entry is the unique holder of its block value,
/// and freed entries hold the canonical empty block and so are absent from
/// the value-to-index association.
pub proof fn lemma_refcount_invariant(s: Space, i: int, j: int)
    requires
        s.wf(),
        0 <= i < s.block_data@.len(),
        0 <= j < s.block_data@.len(),
    ensures
        s.block_data@[i]@.count == occurrences(s.contents@, i as BlockIndex),
        i != j && s.block_data@[i]@.count > 0 && s.block_data@[j]@.count > 0
            ==> s.block_data@[i]@.block != s.block_data@[j]@.block,
        s.block_data@[i]@.count == 0 ==> s.block_data@[i]@.block == air_snapshot(),
{
}

/// Light convergence is deterministic: two well-formed spaces over the same
/// grid and physics whose cells hold equal block values, each with no light
/// recomputation pending (as [`Space::evaluate_light`] with a zero threshold
/// guarantees), store identical light values in every cell — however the
/// edits that produced them were ordered.
pub proof fn lemma_light_convergence_determinism(a: Space, b: Space)
    requires
        a.wf(),
        b.wf(),
        a.grid == b.grid,
        a.physics == b.physics,
        a.physics.light is Rays,
        a.light_update_queue@.len() == 0,
        b.light_update_queue@.len() == 0,
        forall|c: GridPoint|
            a.grid.spec_contains(c) ==> #[trigger] a.spec_block_at(c) == b.spec_block_at(c),
    ensures
        forall|c: GridPoint|
            #[trigger] a.grid.spec_contains(c) ==> a.lighting@[a.grid.spec_index_of(c)]
                == b.lighting@[b.grid.spec_index_of(c)],
{
    assert forall|c: GridPoint|
        #[trigger] a.grid.spec_contains(c) implies a.spec_opaque_at(c) == b.spec_opaque_at(
        c,
    ) by {
        lemma_index_in_range(a.grid, c);
        let k = a.grid.spec_index_of(c);
        let ia = a.contents@[k] as int;
        let ib = b.contents@[k] as int;
        assert(a.spec_block_at(c) == a.block_data@[ia]@.block);
        assert(b.spec_block_at(c) == b.block_data@[ib]@.block);
        assert(spec_evaluate(a.block_data@[ia]@.block) == Ok::<EvaluatedBlock, EvalBlockError>(
            a.block_data@[ia]@.evaluated,
        ));
        assert(spec_evaluate(b.block_data@[ib]@.block) == Ok::<EvaluatedBlock, EvalBlockError>(
            b.block_data@[ib]@.evaluated,
        ));
    }
    assert forall|c: GridPoint|
        #[trigger] a.grid.spec_contains(c) implies a.lighting@[a.grid.spec_index_of(c)]
        == b.lighting@[b.grid.spec_index_of(c)] by {
        lemma_index_in_range(a.grid, c);
        assert(!a.light_update_queue.spec_contains(c));
        assert(!b.light_update_queue.spec_contains(c));
        assert(a.lighting@[a.grid.spec_index_of(c)] == a.spec_light_of(c));
        assert(b.lighting@[b.grid.spec_index_of(c)] == b.spec_light_of(c));
        lemma_light_congruent(a, b, c);
    }
}

/// The block values of the live entries of a block table, in index order,
/// not counting the canonical empty block: the distinct blocks genuinely
/// placed in the space.
pub open spec fn live_blocks(data: Seq<BlockDataSnapshot>) -> Seq<BlockSnapshot>
    decreases data.len(),
{
    if data.len() == 0 {
        Seq::<BlockSnapshot>::empty()
    } else {
        let rest = live_blocks(data.drop_last());
        if data.last().count > 0 && data.last().block != air_snapshot() {
            rest.push(data.last().block)
        } else {
            rest
        }
    }
}



} // verus!