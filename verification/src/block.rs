//! Block definitions: the opaque, comparable, cloneable values that cells of
//! the world store reference, together with their evaluated form.
//!
//! A block is a primitive (empty space, a colored atom, or a nested voxel
//! volume abstracted to its nesting depth and color) wrapped in a list of
//! modifiers. Equality of the whole value defines deduplication identity in
//! the block table.

use vstd::prelude::*;

use crate::math::{Face, GridRotation};

verus! {

/// How deeply nested a recursive block may be before evaluation refuses it.
pub const EVAL_NESTING_LIMIT: u8 = 8;

/// A color with an alpha channel, with all components as 8-bit fractions of
/// full intensity.
#[derive(Clone, Copy, Debug, PartialEq, Eq, Hash, Structural)]
pub struct Rgba {
    pub red: u8,
    pub green: u8,
    pub blue: u8,
    pub alpha: u8,
}

impl Rgba {
    /// A color from its four components.
    pub fn new(red: u8, green: u8, blue: u8, alpha: u8) -> (r: Rgba)
        ensures
            r == (Rgba { red, green, blue, alpha }),
    {
        Rgba { red, green, blue, alpha }
    }

    /// The fully transparent black color.
    pub fn transparent() -> (r: Rgba)
        ensures
            r == (Rgba { red: 0, green: 0, blue: 0, alpha: 0 }),
    {
        Rgba { red: 0, green: 0, blue: 0, alpha: 0 }
    }

    /// Whether this color has the maximum alpha, so that a block of it hides
    /// what is behind it.
    pub open spec fn spec_fully_opaque(self) -> bool {
        self.alpha == 255
    }

    /// Whether this color has zero alpha.
    pub open spec fn spec_fully_transparent(self) -> bool {
        self.alpha == 0
    }

    /// Whether this color has the maximum alpha.
    pub fn fully_opaque(self) -> (r: bool)
        ensures
            r == self.spec_fully_opaque(),
    {
        self.alpha == 255
    }

    /// Whether this color has zero alpha.
    pub fn fully_transparent(self) -> (r: bool)
        ensures
            r == self.spec_fully_transparent(),
    {
        self.alpha == 0
    }
}

/// The shape-defining part of a block, before modifiers.
#[derive(Clone, Copy, Debug, PartialEq, Eq, Hash, Structural)]
pub enum Primitive {
    /// The canonical empty block: invisible, intangible.
    Air,
    /// A cube uniformly filled with one color.
    Atom(Rgba),
    /// A block whose appearance comes from a nested sub-volume of voxels,
    /// abstracted here to its nesting depth and overall color.
    Recur { nesting: u8, color: Rgba },
}

/// Modifiers can be applied to a [`Block`] to change the result of
/// evaluating it.
#[derive(Clone, Copy, Debug, PartialEq, Eq, Hash, Structural)]
pub enum Modifier {
    /// Suppresses all behaviors of the block that might affect the space
    /// around it. If `ambient` is true, also suppress light and sound
    /// effects.
    Quote { ambient: bool },
    /// Rotate the block about its cube center by the given rotation.
    Rotate(GridRotation),
    /// Displace the block out of the grid, cropping it. A pair of `Move`s can
    /// depict a block moving between two cubes.
    Move {
        /// The direction in which the block is displaced.
        direction: Face,
        /// The distance, in 1/256ths of a cube, by which it is displaced.
        distance: u16,
        /// The velocity per step with which the displacement is changing.
        velocity: i16,
    },
}

impl Modifier {
    /// Return the given `block` with `self` added as the outermost modifier.
    pub fn attach(self, block: Block) -> (r: Block)
        ensures
            r@.primitive == block@.primitive,
            r@.modifiers == block@.modifiers.push(self),
    {
        let mut block = block;
        block.modifiers.push(self);
        block
    }

    /// Create a pair of [`Modifier::Move`]s to displace a block. The first
    /// goes on the block being moved and the second on the air it is moving
    /// into.
    ///
    /// The distance cannot exceed one whole cube, and the velocity must be
    /// negatable.
    pub fn paired_move(direction: Face, distance: u16, velocity: i16) -> (r: [Modifier; 2])
        requires
            distance <= 256,
            velocity != i16::MIN,
        ensures
            r@ == seq![
                Modifier::Move { direction, distance, velocity },
                Modifier::Move {
                    direction: direction.spec_opposite(),
                    distance: (256 - distance) as u16,
                    velocity: (-velocity) as i16,
                },
            ],
    {
        let r = [
            Modifier::Move { direction, distance, velocity },
            Modifier::Move {
                direction: direction.opposite(),
                distance: 256 - distance,
                velocity: -velocity,
            },
        ];
        proof {
            assert(r@ =~= seq![
                Modifier::Move { direction, distance, velocity },
                Modifier::Move {
                    direction: direction.spec_opposite(),
                    distance: (256 - distance) as u16,
                    velocity: (-velocity) as i16,
                },
            ]);
        }
        r
    }
}

/// The mathematical value of a [`Block`]: its primitive and the sequence of
/// modifiers wrapped around it, outermost last.
pub struct BlockSnapshot {
    pub primitive: Primitive,
    pub modifiers: Seq<Modifier>,
}

/// A block definition: a primitive wrapped in modifiers.
///
/// Blocks compare equal exactly when their primitives and modifier lists are
/// equal; that equality is what the block table deduplicates by.
#[derive(Debug)]
pub struct Block {
    /// The shape-defining part.
    pub primitive: Primitive,
    /// Modifiers wrapped around the primitive, outermost last.
    pub modifiers: Vec<Modifier>,
}

impl View for Block {
    type V = BlockSnapshot;

    open spec fn view(&self) -> BlockSnapshot {
        BlockSnapshot { primitive: self.primitive, modifiers: self.modifiers@ }
    }
}

impl Clone for Block {
    /// Blocks clone to equal values.
    fn clone(&self) -> (r: Block)
        ensures
            r@ == self@,
    {
        let r = Block { primitive: self.primitive, modifiers: clone_modifiers(&self.modifiers) };
        proof {
            assert(r@.modifiers =~= self@.modifiers);
        }
        r
    }
}

/// Copy a modifier list element by element.
fn clone_modifiers(v: &Vec<Modifier>) -> (r: Vec<Modifier>)
    ensures
        r@ == v@,
{
    let mut r: Vec<Modifier> = Vec::new();
    let mut i: usize = 0;
    while i < v.len()
        invariant
            i <= v.len(),
            r@ == v@.subrange(0, i as int),
        decreases v.len() - i,
    {
        r.push(v[i]);
        proof {
            assert(r@ =~= v@.subrange(0, i + 1));
        }
        i = i + 1;
    }
    proof {
        assert(r@ =~= v@);
    }
    r
}

impl PartialEq for Block {
    fn eq(&self, other: &Block) -> (r: bool) {
        if !(self.primitive == other.primitive) {
            return false;
        }
        if self.modifiers.len() != other.modifiers.len() {
            proof {
                assert(self@.modifiers.len() != other@.modifiers.len());
            }
            return false;
        }
        let n = self.modifiers.len();
        let mut i: usize = 0;
        while i < n
            invariant
                i <= n,
                n == self.modifiers.len(),
                n == other.modifiers.len(),
                forall|j: int| 0 <= j < i ==> self.modifiers@[j] == other.modifiers@[j],
            decreases n - i,
        {
            if !(self.modifiers[i] == other.modifiers[i]) {
                return false;
            }
            i = i + 1;
        }
        proof {
            assert(self@.modifiers =~= other@.modifiers);
        }
        true
    }
}

impl vstd::std_specs::cmp::PartialEqSpecImpl for Block {
    open spec fn obeys_eq_spec() -> bool {
        true
    }

    open spec fn eq_spec(&self, other: &Block) -> bool {
        self@ == other@
    }
}

impl Block {
    /// The canonical empty block, filling all cells of a freshly created
    /// world store.
    pub fn air() -> (r: Block)
        ensures
            r@ == air_snapshot(),
    {
        let r = Block { primitive: Primitive::Air, modifiers: Vec::new() };
        proof {
            assert(r@.modifiers =~= air_snapshot().modifiers);
        }
        r
    }

    /// A block consisting of a single uniformly colored cube.
    pub fn from_color(color: Rgba) -> (r: Block)
        ensures
            r@ == (BlockSnapshot {
                primitive: Primitive::Atom(color),
                modifiers: Seq::<Modifier>::empty(),
            }),
    {
        let r = Block { primitive: Primitive::Atom(color), modifiers: Vec::new() };
        proof {
            assert(r@.modifiers =~= Seq::<Modifier>::empty());
        }
        r
    }

    /// A block whose appearance comes from a nested voxel volume.
    pub fn recur(nesting: u8, color: Rgba) -> (r: Block)
        ensures
            r@ == (BlockSnapshot {
                primitive: Primitive::Recur { nesting, color },
                modifiers: Seq::<Modifier>::empty(),
            }),
    {
        let r = Block { primitive: Primitive::Recur { nesting, color }, modifiers: Vec::new() };
        proof {
            assert(r@.modifiers =~= Seq::<Modifier>::empty());
        }
        r
    }

    /// The primitive of this block.
    pub fn primitive(&self) -> (r: Primitive)
        ensures
            r == self@.primitive,
    {
        self.primitive
    }

    /// The modifiers wrapped around the primitive, outermost last.
    pub fn modifiers(&self) -> (r: &Vec<Modifier>)
        ensures
            r@ == self@.modifiers,
    {
        &self.modifiers
    }

    /// Evaluate the block: compute its opacity classification and color, or
    /// fail when a recursive block nests too deeply to be evaluated.
    pub fn evaluate(&self) -> (r: Result<EvaluatedBlock, EvalBlockError>)
        ensures
            r == spec_evaluate(self@),
    {
        let base = match self.primitive {
            Primitive::Air => EvaluatedBlock {
                color: Rgba { red: 0, green: 0, blue: 0, alpha: 0 },
                opaque: false,
                visible: false,
            },
            Primitive::Atom(color) => EvaluatedBlock {
                color,
                opaque: color.fully_opaque(),
                visible: !color.fully_transparent(),
            },
            Primitive::Recur { nesting, color } => {
                if nesting > EVAL_NESTING_LIMIT {
                    return Err(EvalBlockError::StackDepthExceeded);
                }
                EvaluatedBlock { color, opaque: color.fully_opaque(), visible: !color.fully_transparent() }
            },
        };
        let mut value = base;
        let n = self.modifiers.len();
        let mut i: usize = 0;
        proof {
            assert(self@.modifiers.skip(0) =~= self@.modifiers);
        }
        while i < n
            invariant
                i <= n,
                n == self.modifiers.len(),
                apply_modifiers(self@.modifiers.skip(i as int), value) == apply_modifiers(
                    self@.modifiers,
                    base,
                ),
            decreases n - i,
        {
            let ghost pre = self@.modifiers.skip(i as int);
            value = apply_modifier_exec(self.modifiers[i], value);
            proof {
                assert(pre.drop_first() =~= self@.modifiers.skip(i + 1));
            }
            i = i + 1;
        }
        proof {
            assert(self@.modifiers.skip(n as int) =~= Seq::<Modifier>::empty());
        }
        Ok(value)
    }
}

/// The value of the canonical empty block.
pub open spec fn air_snapshot() -> BlockSnapshot {
    BlockSnapshot { primitive: Primitive::Air, modifiers: Seq::<Modifier>::empty() }
}

/// What evaluating the canonical empty block yields.
pub open spec fn air_evaluated() -> EvaluatedBlock {
    EvaluatedBlock {
        color: Rgba { red: 0, green: 0, blue: 0, alpha: 0 },
        opaque: false,
        visible: false,
    }
}

/// A snapshot of the block-evaluation result: its overall color and opacity
/// classification.
#[derive(Clone, Copy, Debug, PartialEq, Eq, Structural)]
pub struct EvaluatedBlock {
    /// The overall color of the block.
    pub color: Rgba,
    /// Whether the block completely hides what is behind it; such a block
    /// blocks light.
    pub opaque: bool,
    /// Whether the block has any visible appearance at all.
    pub visible: bool,
}

/// Errors resulting from evaluating a block.
#[derive(Clone, Copy, Debug, PartialEq, Eq, Hash, Structural)]
pub enum EvalBlockError {
    /// A recursive block nests too deeply to be evaluated.
    StackDepthExceeded,
}

/// Evaluation of a primitive alone: the one failing case is a recursive
/// block nested beyond [`EVAL_NESTING_LIMIT`].
pub open spec fn eval_primitive(p: Primitive) -> Result<EvaluatedBlock, EvalBlockError> {
    match p {
        Primitive::Air => Ok(air_evaluated()),
        Primitive::Atom(color) => Ok(
            EvaluatedBlock {
                color,
                opaque: color.spec_fully_opaque(),
                visible: !color.spec_fully_transparent(),
            },
        ),
        Primitive::Recur { nesting, color } => {
            if nesting > EVAL_NESTING_LIMIT {
                Err(EvalBlockError::StackDepthExceeded)
            } else {
                Ok(
                    EvaluatedBlock {
                        color,
                        opaque: color.spec_fully_opaque(),
                        visible: !color.spec_fully_transparent(),
                    },
                )
            }
        },
    }
}

/// The effect of one modifier on an evaluated block: quoting and rotating a
/// uniform block leave its appearance unchanged; a partial displacement
/// uncovers what is behind the block, and a whole-cube displacement leaves
/// nothing visible in the original cube.
pub open spec fn apply_modifier(m: Modifier, v: EvaluatedBlock) -> EvaluatedBlock {
    match m {
        Modifier::Quote { .. } => v,
        Modifier::Rotate(_) => v,
        Modifier::Move { distance, .. } => {
            if distance == 0 {
                v
            } else if distance < 256 {
                EvaluatedBlock { color: v.color, opaque: false, visible: v.visible }
            } else {
                air_evaluated()
            }
        },
    }
}

/// Apply a sequence of modifiers in order, innermost first.
pub open spec fn apply_modifiers(ms: Seq<Modifier>, v: EvaluatedBlock) -> EvaluatedBlock
    decreases ms.len(),
{
    if ms.len() == 0 {
        v
    } else {
        apply_modifiers(ms.drop_first(), apply_modifier(ms[0], v))
    }
}

/// Full block evaluation: evaluate the primitive, then apply the modifiers.
pub open spec fn spec_evaluate(b: BlockSnapshot) -> Result<EvaluatedBlock, EvalBlockError> {
    match eval_primitive(b.primitive) {
        Ok(v) => Ok(apply_modifiers(b.modifiers, v)),
        Err(e) => Err(e),
    }
}

/// One modifier step, executably.
fn apply_modifier_exec(m: Modifier, v: EvaluatedBlock) -> (r: EvaluatedBlock)
    ensures
        r == apply_modifier(m, v),
{
    match m {
        Modifier::Quote { .. } => v,
        Modifier::Rotate(_) => v,
        Modifier::Move { distance, .. } => {
            if distance == 0 {
                v
            } else if distance < 256 {
                EvaluatedBlock { color: v.color, opaque: false, visible: v.visible }
            } else {
                EvaluatedBlock {
                    color: Rgba { red: 0, green: 0, blue: 0, alpha: 0 },
                    opaque: false,
                    visible: false,
                }
            }
        },
    }
}

} // verus!
