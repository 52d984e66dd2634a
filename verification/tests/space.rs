use all_is_cubes::block::{Block, EvalBlockError, Rgba};
use all_is_cubes::grid::Grid;
use all_is_cubes::math::{GridPoint, GridVector};
use all_is_cubes::space::{SetCubeError, Space, SpaceChange};

/// Distinct uniformly colored blocks for test scenarios.
fn make_some_blocks(count: u8) -> Vec<Block> {
    let mut blocks = Vec::new();
    for i in 0..count {
        blocks.push(Block::from_color(Rgba::new(i, i, i, 255)));
    }
    blocks
}

/// Recompute every entry's reference count from the contents and compare,
/// and check that live entries hold pairwise distinct blocks.
fn consistency_check(space: &Space) {
    let grid = space.grid();
    let lower = grid.lower_bounds();
    let sizes = grid.sizes();
    let data = space.block_data();
    let mut actual_counts = vec![0usize; data.len()];
    for x in lower.x..lower.x + sizes.x {
        for y in lower.y..lower.y + sizes.y {
            for z in lower.z..lower.z + sizes.z {
                let index = space.get_block_index(GridPoint::new(x, y, z)).unwrap();
                actual_counts[index as usize] += 1;
            }
        }
    }
    for (index, entry) in data.iter().enumerate() {
        assert_eq!(
            entry.count(),
            actual_counts[index],
            "entry {} count mismatch",
            index
        );
    }
    for i in 0..data.len() {
        for j in (i + 1)..data.len() {
            if data[i].count() > 0 && data[j].count() > 0 {
                assert!(data[i].block() != data[j].block());
            }
        }
    }
}

#[test]
fn it_works() {
    let grid = Grid::new(GridPoint::new(0, 0, 0), GridVector::new(100, 100, 100));
    let _space = Space::empty(grid);

    assert!(grid.volume() == 1_000_000);
}

#[test]
fn removed_blocks_are_forgotten() {
    let blocks = make_some_blocks(3);
    let mut space = Space::empty_positive(2, 1, 1);
    let pt1 = GridPoint::new(0, 0, 0);
    let pt2 = GridPoint::new(1, 0, 0);
    assert_eq!(space.distinct_blocks(), vec![], "step 1");
    space.set(pt1, &blocks[0]).unwrap();
    assert_eq!(space.distinct_blocks(), vec![blocks[0].clone()], "step 2");
    space.set(pt2, &blocks[1]).unwrap();
    assert_eq!(
        space.distinct_blocks(),
        vec![blocks[1].clone(), blocks[0].clone()],
        "step 3"
    );
    space.set(pt1, &blocks[2]).unwrap();
    assert_eq!(
        space.distinct_blocks(),
        vec![blocks[1].clone(), blocks[2].clone()],
        "step 4"
    );
    consistency_check(&space);
}

/// Replacing the sole occupant of an index with a brand-new block keeps the
/// cell's index; replacing it with a block present elsewhere reassigns the
/// cell to the existing index.
#[test]
fn in_place_replace_stability() {
    let blocks = make_some_blocks(3);
    let mut space = Space::empty_positive(2, 1, 1);
    let pt1 = GridPoint::new(0, 0, 0);
    let pt2 = GridPoint::new(1, 0, 0);
    space.set(pt1, &blocks[0]).unwrap();
    let index_before = space.get_block_index(pt1).unwrap();
    // Brand-new value: the index is reused in place.
    space.set(pt1, &blocks[1]).unwrap();
    assert_eq!(space.get_block_index(pt1).unwrap(), index_before);
    // A value already present elsewhere: the cell moves to the existing
    // index.
    space.set(pt2, &blocks[2]).unwrap();
    let existing_index = space.get_block_index(pt2).unwrap();
    space.set(pt1, &blocks[2]).unwrap();
    assert_eq!(space.get_block_index(pt1).unwrap(), existing_index);
    consistency_check(&space);
}

/// A 2x2x2 store: set two distinct blocks, repeat one set as a no-op, then
/// clear one of them and observe that it is forgotten.
#[test]
fn end_to_end_scenario() {
    let block_a = Block::from_color(Rgba::new(10, 20, 30, 255));
    let block_b = Block::from_color(Rgba::new(40, 50, 60, 255));
    let empty = Block::air();
    let mut space = Space::empty_positive(2, 2, 2);
    let p_a = GridPoint::new(0, 0, 0);
    let p_b = GridPoint::new(1, 0, 0);

    assert_eq!(space.set(p_a, &block_a), Ok(true));
    assert_eq!(space.set(p_b, &block_b), Ok(true));
    // Setting an already-equal block is a success and a no-op.
    assert_eq!(space.set(p_a, &block_a), Ok(false));

    // Exactly the two placed blocks, each referenced by one cell; the
    // canonical empty block filling the rest is not listed.
    let distinct = space.distinct_blocks();
    assert_eq!(distinct, vec![block_a.clone(), block_b.clone()]);
    let data = space.block_data();
    assert_eq!(data[1].count(), 1);
    assert_eq!(data[2].count(), 1);
    consistency_check(&space);

    assert_eq!(space.set(p_b, &empty), Ok(true));
    let distinct = space.distinct_blocks();
    assert_eq!(distinct, vec![block_a.clone()]);
    for entry in space.block_data() {
        if entry.count() > 0 {
            assert!(entry.block() != &block_b, "removed block must be forgotten");
        }
    }
    assert_eq!(space.block_data()[1].count(), 1);
    consistency_check(&space);
}

#[test]
fn set_out_of_bounds_is_rejected() {
    let block = Block::from_color(Rgba::new(1, 2, 3, 255));
    let mut space = Space::empty_positive(2, 2, 2);
    let result = space.set(GridPoint::new(5, 0, 0), &block);
    match result {
        Err(SetCubeError::OutOfBounds { .. }) => (),
        other => panic!("expected OutOfBounds, got {:?}", other),
    }
    // No change was made.
    assert_eq!(space.get_block(GridPoint::new(0, 0, 0)), Block::air());
    consistency_check(&space);
}

#[test]
fn set_eval_failure_leaves_space_unchanged() {
    // A recursive block nested too deeply fails evaluation.
    let bad = Block::recur(200, Rgba::new(1, 2, 3, 255));
    assert_eq!(bad.evaluate(), Err(EvalBlockError::StackDepthExceeded));
    let mut space = Space::empty_positive(1, 1, 1);
    let p = GridPoint::new(0, 0, 0);
    assert_eq!(
        space.set(p, &bad),
        Err(SetCubeError::EvalBlock(EvalBlockError::StackDepthExceeded))
    );
    assert_eq!(space.get_block(p), Block::air());
    consistency_check(&space);
}

#[test]
fn get_block_defaults_outside_grid() {
    let space = Space::empty_positive(1, 1, 1);
    assert_eq!(space.get_block(GridPoint::new(9, 9, 9)), Block::air());
    assert_eq!(space.get_block_index(GridPoint::new(9, 9, 9)), None);
}

#[test]
fn fill_uniform_whole_and_partial() {
    let block = Block::from_color(Rgba::new(7, 7, 7, 255));
    let mut space = Space::empty_positive(3, 3, 3);
    // Whole-grid fill is an atomic replace.
    space.fill_uniform(space.grid(), &block).unwrap();
    assert_eq!(space.get_block(GridPoint::new(2, 2, 2)), block);
    consistency_check(&space);
    // Partial fill replaces only the region.
    let empty = Block::air();
    let region = Grid::new(GridPoint::new(0, 0, 0), GridVector::new(1, 3, 3));
    space.fill_uniform(region, &empty).unwrap();
    assert_eq!(space.get_block(GridPoint::new(0, 1, 2)), empty);
    assert_eq!(space.get_block(GridPoint::new(1, 1, 2)), block);
    consistency_check(&space);
    // An out-of-bounds region is rejected before any change.
    let oversize = Grid::new(GridPoint::new(0, 0, 0), GridVector::new(4, 1, 1));
    match space.fill_uniform(oversize, &block) {
        Err(SetCubeError::OutOfBounds { .. }) => (),
        other => panic!("expected OutOfBounds, got {:?}", other),
    }
}

#[test]
fn fill_with_function() {
    let block = Block::from_color(Rgba::new(9, 9, 9, 255));
    let mut space = Space::empty_positive(2, 1, 1);
    let region = Grid::new(GridPoint::new(0, 0, 0), GridVector::new(2, 1, 1));
    let chosen = block.clone();
    space
        .fill(region, move |p| {
            if p.x == 0 {
                Some(chosen.clone())
            } else {
                None
            }
        })
        .unwrap();
    assert_eq!(space.get_block(GridPoint::new(0, 0, 0)), block);
    assert_eq!(space.get_block(GridPoint::new(1, 0, 0)), Block::air());
    consistency_check(&space);
}

#[test]
fn change_log_records_cell_changes() {
    let block = Block::from_color(Rgba::new(3, 1, 4, 255));
    let mut space = Space::empty_positive(2, 1, 1);
    space.drain_changes();
    let p = GridPoint::new(1, 0, 0);
    space.set(p, &block).unwrap();
    let index = space.get_block_index(p).unwrap();
    let changes = space.drain_changes();
    // A brand-new block value reassigns an index: that event comes first,
    // and the cell-changed event comes last.
    assert_eq!(changes.first(), Some(&SpaceChange::Number(index)));
    assert_eq!(changes.last(), Some(&SpaceChange::Block(p)));
    assert_eq!(space.drain_changes(), vec![]);
}

#[test]
fn whole_grid_fill_emits_every_block_change() {
    let block = Block::from_color(Rgba::new(6, 6, 6, 255));
    let mut space = Space::empty_positive(2, 2, 2);
    space.drain_changes();
    space.fill_uniform(space.grid(), &block).unwrap();
    assert_eq!(space.drain_changes(), vec![SpaceChange::EveryBlock]);
    assert_eq!(space.block_data().len(), 1);
    assert_eq!(space.block_data()[0].count(), 8);
}
