use all_is_cubes::apps::Layers;
use all_is_cubes::block::{Block, EvalBlockError, Modifier, Primitive, Rgba};
use all_is_cubes::math::{Face, GridPoint};
use all_is_cubes::space::Space;
use all_is_cubes::tools::{Tool, ToolError};
use all_is_cubes::universe::{BorrowState, Name};

/// A space with one distinct block placed at (1, 0, 0), and that block.
fn setup() -> (Space, Block) {
    let existing = Block::from_color(Rgba::new(30, 30, 30, 255));
    let mut space = Space::empty_positive(6, 4, 4);
    space.set(GridPoint::new(1, 0, 0), &existing).unwrap();
    (space, existing)
}

#[test]
fn icon_none() {
    assert_eq!(Tool::NoTool.icon(), Block::air());
}

#[test]
fn icon_delete_block() {
    let _ = Tool::DeleteBlock.icon();
}

#[test]
fn icon_place_block() {
    let block = Block::from_color(Rgba::new(5, 6, 7, 255));
    assert_eq!(Tool::PlaceBlock(block.clone()).icon(), block);
}

#[test]
fn use_none() {
    let (mut space, existing) = setup();
    let result = Tool::NoTool.use_tool(&mut space, GridPoint::new(1, 0, 0), &existing);
    assert!(matches!(result, Err(ToolError::NotUsable)));
    assert_eq!(space.get_block(GridPoint::new(1, 0, 0)), existing);
}

#[test]
fn use_delete_block() {
    let (mut space, existing) = setup();
    let result = Tool::DeleteBlock.use_tool(&mut space, GridPoint::new(1, 0, 0), &existing);
    assert!(result.is_ok());
    assert_eq!(space.get_block(GridPoint::new(1, 0, 0)), Block::air());
}

#[test]
fn use_delete_block_stale_target() {
    // The cube no longer holds what the user was shown: fail fast, change
    // nothing.
    let (mut space, existing) = setup();
    let other = Block::from_color(Rgba::new(99, 99, 99, 255));
    let result = Tool::DeleteBlock.use_tool(&mut space, GridPoint::new(1, 0, 0), &other);
    assert!(matches!(result, Err(ToolError::NotUsable)));
    assert_eq!(space.get_block(GridPoint::new(1, 0, 0)), existing);
}

#[test]
fn use_place_block() {
    let (mut space, existing) = setup();
    let tool_block = Block::from_color(Rgba::new(77, 77, 77, 255));
    let result = Tool::PlaceBlock(tool_block.clone()).use_tool(
        &mut space,
        GridPoint::new(0, 0, 0),
        &Block::air(),
    );
    assert!(result.is_ok());
    assert_eq!(space.get_block(GridPoint::new(1, 0, 0)), existing);
    assert_eq!(space.get_block(GridPoint::new(0, 0, 0)), tool_block);
}

#[test]
fn use_place_block_with_obstacle() {
    // Placement into an occupied cube is refused.
    let (mut space, existing) = setup();
    let tool_block = Block::from_color(Rgba::new(77, 77, 77, 255));
    let result = Tool::PlaceBlock(tool_block).use_tool(
        &mut space,
        GridPoint::new(1, 0, 0),
        &Block::air(),
    );
    assert!(matches!(result, Err(ToolError::NotUsable)));
    assert_eq!(space.get_block(GridPoint::new(1, 0, 0)), existing);
}

#[test]
fn block_evaluation_opacity() {
    let solid = Block::from_color(Rgba::new(1, 2, 3, 255));
    let ev = solid.evaluate().unwrap();
    assert!(ev.opaque);
    assert!(ev.visible);

    let tinted = Block::from_color(Rgba::new(1, 2, 3, 100));
    let ev = tinted.evaluate().unwrap();
    assert!(!ev.opaque);
    assert!(ev.visible);

    let ev = Block::air().evaluate().unwrap();
    assert!(!ev.opaque);
    assert!(!ev.visible);
}

#[test]
fn block_evaluation_depth_limit() {
    let fine = Block::recur(3, Rgba::new(1, 1, 1, 255));
    assert!(fine.evaluate().is_ok());
    let nested = Block::recur(9, Rgba::new(1, 1, 1, 255));
    assert_eq!(nested.evaluate(), Err(EvalBlockError::StackDepthExceeded));
}

#[test]
fn modifier_attach_appends() {
    let block = Block::from_color(Rgba::new(1, 2, 3, 255));
    let modified = Modifier::Quote { ambient: true }.attach(block);
    assert_eq!(modified.modifiers().len(), 1);
    assert_eq!(modified.primitive(), Primitive::Atom(Rgba::new(1, 2, 3, 255)));
}

#[test]
fn modifier_move_uncovers_block() {
    let block = Block::from_color(Rgba::new(1, 2, 3, 255));
    let moved = Modifier::Move { direction: Face::PX, distance: 10, velocity: 0 }.attach(block);
    let ev = moved.evaluate().unwrap();
    assert!(!ev.opaque);
    assert!(ev.visible);
    let block = Block::from_color(Rgba::new(1, 2, 3, 255));
    let gone = Modifier::Move { direction: Face::PX, distance: 256, velocity: 0 }.attach(block);
    let ev = gone.evaluate().unwrap();
    assert!(!ev.visible);
}

#[test]
fn paired_move_mirrors() {
    let [a, b] = Modifier::paired_move(Face::PX, 100, 10);
    assert_eq!(a, Modifier::Move { direction: Face::PX, distance: 100, velocity: 10 });
    assert_eq!(b, Modifier::Move { direction: Face::NX, distance: 156, velocity: -10 });
}

#[test]
fn layers_map_and_try_map() {
    let layers = Layers { world: 1u32, ui: 2u32 };
    let refs = layers.as_refs();
    assert_eq!(*refs.world, 1);
    let doubled = layers.map(|v| v * 2);
    assert_eq!(doubled, Layers { world: 2, ui: 4 });
    let ok: Result<Layers<u32>, ()> = layers.try_map_ref(|v| Ok(v + 1));
    assert_eq!(ok, Ok(Layers { world: 2, ui: 3 }));
    let err: Result<Layers<u32>, &str> = layers.try_map_ref(|v| {
        if *v == 2 {
            Err("no")
        } else {
            Ok(*v)
        }
    });
    assert_eq!(err, Err("no"));
}

#[test]
fn borrow_discipline_fails_fast() {
    let name = Name::Specific("world".to_string());
    let mut state = BorrowState::new();
    assert!(state.try_acquire_shared(&name).is_ok());
    assert!(state.try_acquire_shared(&name).is_ok());
    // A writer cannot enter while readers are outstanding.
    assert!(state.try_acquire_exclusive(&name).is_err());
    state.release_shared();
    state.release_shared();
    assert!(state.try_acquire_exclusive(&name).is_ok());
    // Conflicting borrows fail rather than block.
    assert!(state.try_acquire_shared(&name).is_err());
    assert!(state.try_acquire_exclusive(&name).is_err());
    state.release_exclusive();
    assert!(state.try_acquire_shared(&name).is_ok());
}
