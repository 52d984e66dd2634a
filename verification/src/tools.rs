//! Means by which the player may alter or interact with the world.

use vstd::prelude::*;

use crate::block::{air_snapshot, spec_evaluate, Block, BlockSnapshot, Primitive, Rgba};
use crate::math::GridPoint;
use crate::space::{SetCubeError, Space};
use crate::universe::RefError;

verus! {

/// A `Tool` is an object which a character can use to have some effect in
/// the game, such as placing or removing a block. A tool use usually
/// corresponds to a click.
#[derive(Clone, Debug)]
pub enum Tool {
    /// Empty hands: no effect.
    NoTool,
    /// Remove the targeted block.
    DeleteBlock,
    /// Place a copy of the carried block.
    PlaceBlock(Block),
}

impl Tool {
    /// Return a block to use as an icon for this tool. For
    /// [`Tool::PlaceBlock`] it has the same appearance as the block to be
    /// placed; the deletion tool shows a red marker and empty hands show
    /// nothing.
    pub fn icon(&self) -> (r: Block)
        ensures
            self is NoTool ==> r@ == air_snapshot(),
            self is DeleteBlock ==> r@ == (BlockSnapshot {
                primitive: Primitive::Atom(
                    Rgba { red: 255, green: 0, blue: 0, alpha: 255 },
                ),
                modifiers: Seq::empty(),
            }),
            forall|b: &Block| self == Tool::PlaceBlock(*b) ==> r@ == b@,
    {
        match self {
            Tool::NoTool => Block::air(),
            Tool::DeleteBlock => Block::from_color(
                Rgba { red: 255, green: 0, blue: 0, alpha: 255 },
            ),
            Tool::PlaceBlock(block) => block.clone(),
        }
    }
}

impl Tool {
    /// Use the tool on a targeted cube: verify that the cube still holds
    /// the block the user was shown (`preceding`), then replace it —
    /// deletion places the canonical empty block where `preceding` stood,
    /// and placement puts the carried block into a cube shown empty. On
    /// success, pending light updates are drained at once so that stale
    /// light is unlikely to be rendered. Borrowing the space is the
    /// caller's concern.
    #[verifier::spinoff_prover]
    #[verifier::rlimit(100)]
    pub fn use_tool(
        &self,
        space: &mut Space,
        cube: GridPoint,
        preceding: &Block,
    ) -> (r: Result<(), ToolError>)
        requires
            old(space).wf(),
        ensures
            final(space).wf(),
            final(space).grid == old(space).grid,
            final(space).physics == old(space).physics,
            self is NoTool ==> (r matches Err(ToolError::NotUsable)) && *final(space) == *old(space),
            (r matches Err(ToolError::NotUsable)) ==> *final(space) == *old(space),
            self is DeleteBlock ==> {
                &&& (old(space).spec_block_at(cube) != preceding@ ==> (r matches Err(
                    ToolError::NotUsable,
                )))
                &&& (old(space).spec_block_at(cube) == preceding@ && old(space).grid.spec_contains(cube) && old(space).block_data@.len() < u16::MAX ==> r
                    is Ok)
                &&& (old(space).spec_block_at(cube) == preceding@ && !old(space).grid.spec_contains(cube) ==> (r matches Err(
                    ToolError::SetCube(SetCubeError::OutOfBounds { .. }),
                )))
                &&& (r is Ok ==> final(space).spec_block_at(cube) == air_snapshot() && final(space).light_update_queue@.len() == 0)
            },
            forall|b: &Block|
                self == Tool::PlaceBlock(*b) ==> {
                    &&& (old(space).spec_block_at(cube) != air_snapshot() ==> (r matches Err(
                        ToolError::NotUsable,
                    )))
                    &&& (old(space).spec_block_at(cube) == air_snapshot() && old(space).grid.spec_contains(cube) && spec_evaluate(b@) is Ok && old(space).block_data@.len() < u16::MAX ==> r is Ok)
                    &&& (r is Ok ==> final(space).spec_block_at(cube) == b@ && final(space).light_update_queue@.len() == 0)
                },
            r is Ok ==> forall|c: GridPoint|
                c != cube ==> final(space).spec_block_at(c) == old(space).spec_block_at(c),
    {
        match self {
            Tool::NoTool => Err(ToolError::NotUsable),
            Tool::DeleteBlock => {
                if !(space.get_block(cube) == *preceding) {
                    return Err(ToolError::NotUsable);
                }
                let air = Block::air();
                match space.set(cube, &air) {
                    Ok(_) => (),
                    Err(e) => {
                        return Err(ToolError::SetCube(e));
                    },
                }
                let budget = space.light_update_queue.len();
                let _ = space.update_lighting_from_queue(budget);
                Ok(())
            },
            Tool::PlaceBlock(block) => {
                let air = Block::air();
                if !(space.get_block(cube) == air) {
                    return Err(ToolError::NotUsable);
                }
                match space.set(cube, block) {
                    Ok(_) => (),
                    Err(e) => {
                        return Err(ToolError::SetCube(e));
                    },
                }
                let budget = space.light_update_queue.len();
                let _ = space.update_lighting_from_queue(budget);
                Ok(())
            },
        }
    }
}

/// Ways that a tool can fail.
#[derive(Clone, Debug)]
pub enum ToolError {
    /// The tool cannot currently be used or does not apply to the target.
    NotUsable,
    /// The tool requires a target cube and none was present.
    NothingSelected,
    /// The cube to be modified could not be modified; see the inner error
    /// for why.
    SetCube(SetCubeError),
    /// The space to be modified could not be accessed.
    SpaceRef(RefError),
}

} // verus!
