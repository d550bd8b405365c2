use mapgen::block::{BlockType, GameTile, Overwrite};
use mapgen::error::GenError;
use mapgen::grid::Grid;
use mapgen::kernel::Kernel;
use mapgen::position::Position;

fn small_grid(default: BlockType) -> Grid {
    Grid::new(10, 10, default, Position::new(5, 5))
}

fn snapshot(g: &Grid) -> Vec<BlockType> {
    let mut cells = Vec::new();
    for x in 0..g.width() {
        for y in 0..g.height() {
            cells.push(g.get_block(x, y));
        }
    }
    cells
}

#[test]
fn block_mappings_are_exact() {
    assert_eq!(BlockType::Empty.to_ingame_id(), 0);
    assert_eq!(BlockType::EmptyReserved.to_ingame_id(), 0);
    assert_eq!(BlockType::Hookable.to_ingame_id(), 1);
    assert_eq!(BlockType::Platform.to_ingame_id(), 1);
    assert_eq!(BlockType::Freeze.to_ingame_id(), 9);
    assert_eq!(BlockType::Spawn.to_ingame_id(), 192);
    assert_eq!(BlockType::Start.to_ingame_id(), 33);
    assert_eq!(BlockType::Finish.to_ingame_id(), 34);

    assert_eq!(BlockType::Hookable.to_game_tile(), GameTile::Hookable);
    assert_eq!(BlockType::Platform.to_game_tile(), GameTile::Hookable);
    assert_eq!(BlockType::Freeze.to_game_tile(), GameTile::Freeze);
    assert_eq!(BlockType::Empty.to_game_tile(), GameTile::Empty);
    assert_eq!(BlockType::EmptyReserved.to_game_tile(), GameTile::Empty);
    assert_eq!(BlockType::Spawn.to_game_tile(), GameTile::Empty);

    assert!(BlockType::Hookable.is_solid());
    assert!(BlockType::Platform.is_solid());
    assert!(!BlockType::Freeze.is_solid());
    assert!(BlockType::Freeze.is_freeze());
    assert!(!BlockType::Empty.is_freeze());
    assert!(mapgen::block::is_freeze(&BlockType::Freeze));
    assert!(!mapgen::block::is_freeze(&BlockType::Hookable));
}

#[test]
fn will_override_policies() {
    assert!(Overwrite::Force.will_override(&BlockType::Start));
    assert!(Overwrite::ReplaceSolidFreeze.will_override(&BlockType::Hookable));
    assert!(Overwrite::ReplaceSolidFreeze.will_override(&BlockType::Freeze));
    assert!(!Overwrite::ReplaceSolidFreeze.will_override(&BlockType::Empty));
    assert!(Overwrite::ReplaceSolidOnly.will_override(&BlockType::Hookable));
    assert!(!Overwrite::ReplaceSolidOnly.will_override(&BlockType::Freeze));
    assert!(Overwrite::ReplaceEmptyOnly.will_override(&BlockType::Empty));
    assert!(!Overwrite::ReplaceEmptyOnly.will_override(&BlockType::EmptyReserved));
    assert!(Overwrite::ReplaceNonSolid.will_override(&BlockType::Freeze));
    assert!(Overwrite::ReplaceNonSolid.will_override(&BlockType::Empty));
    assert!(!Overwrite::ReplaceNonSolid.will_override(&BlockType::EmptyReserved));
    assert!(Overwrite::ReplaceNonSolidForce.will_override(&BlockType::EmptyReserved));
    assert!(!Overwrite::ReplaceNonSolidForce.will_override(&BlockType::Hookable));
}

#[test]
fn new_grid_is_filled_with_default() {
    let g = small_grid(BlockType::Hookable);
    for x in 0..10 {
        for y in 0..10 {
            assert_eq!(g.get_block(x, y), BlockType::Hookable);
        }
    }
    assert_eq!(g.width(), 10);
    assert_eq!(g.height(), 10);
    assert_eq!(g.spawn(), Position::new(5, 5));
    for cx in 0..2 {
        for cy in 0..2 {
            assert!(!g.chunk_edited(cx, cy));
        }
    }
}

/// A kernel whose footprint exceeds the grid mutates nothing and
/// reports failure.
#[test]
fn apply_kernel_out_of_bounds_is_noop() {
    let mut g = small_grid(BlockType::Hookable);
    let before = snapshot(&g);
    let k = Kernel::new(5, 8);
    let ok = g.apply_kernel(&Position::new(1, 5), &k, BlockType::Empty);
    assert!(!ok);
    assert_eq!(snapshot(&g), before);
    for cx in 0..2 {
        for cy in 0..2 {
            assert!(!g.chunk_edited(cx, cy));
        }
    }
    let ok = g.apply_kernel(&Position::new(5, 9), &k, BlockType::Empty);
    assert!(!ok);
    assert_eq!(snapshot(&g), before);
}

#[test]
fn apply_kernel_carves_plus_shape() {
    let mut g = small_grid(BlockType::Hookable);
    let k = Kernel::new(3, 1);
    let ok = g.apply_kernel(&Position::new(4, 4), &k, BlockType::Empty);
    assert!(ok);
    let carved = [(4, 3), (3, 4), (4, 4), (5, 4), (4, 5)];
    for x in 0..10 {
        for y in 0..10 {
            if carved.contains(&(x, y)) {
                assert_eq!(g.get_block(x, y), BlockType::Empty);
            } else {
                assert_eq!(g.get_block(x, y), BlockType::Hookable);
            }
        }
    }
    assert!(g.chunk_edited(0, 0));
}

#[test]
fn apply_kernel_spares_non_carveable_blocks() {
    let mut g = small_grid(BlockType::Hookable);
    g.set_area(
        &Position::new(4, 4),
        &Position::new(4, 4),
        &BlockType::Start,
        &Overwrite::Force,
    );
    let k = Kernel::new(3, 2);
    assert!(g.apply_kernel(&Position::new(4, 4), &k, BlockType::Empty));
    assert_eq!(g.get_block(4, 4), BlockType::Start);
    assert_eq!(g.get_block(3, 3), BlockType::Empty);
}

/// Under the replace-solid-only policy only Hookable cells change.
#[test]
fn set_area_replace_solid_only_changes_only_hookable() {
    let mut g = small_grid(BlockType::Hookable);
    g.set_area(&Position::new(2, 2), &Position::new(4, 2), &BlockType::Freeze, &Overwrite::Force);
    g.set_area(&Position::new(2, 3), &Position::new(4, 3), &BlockType::Empty, &Overwrite::Force);
    let before = snapshot(&g);
    g.set_area(
        &Position::new(0, 0),
        &Position::new(9, 9),
        &BlockType::Platform,
        &Overwrite::ReplaceSolidOnly,
    );
    for x in 0..10 {
        for y in 0..10 {
            let old = before[x * 10 + y];
            let new = g.get_block(x, y);
            if old == BlockType::Hookable {
                assert_eq!(new, BlockType::Platform);
            } else {
                assert_eq!(new, old, "non-Hookable cell ({}, {}) changed", x, y);
            }
        }
    }
}

#[test]
fn set_area_out_of_bounds_is_noop() {
    let mut g = small_grid(BlockType::Hookable);
    let before = snapshot(&g);
    g.set_area(&Position::new(2, 2), &Position::new(10, 3), &BlockType::Freeze, &Overwrite::Force);
    assert_eq!(snapshot(&g), before);
}

#[test]
fn set_area_border_outlines_rectangle() {
    let mut g = small_grid(BlockType::Hookable);
    g.set_area_border(
        &Position::new(2, 2),
        &Position::new(6, 5),
        &BlockType::Freeze,
        &Overwrite::Force,
    );
    for x in 0..10 {
        for y in 0..10 {
            let in_rect = (2..=6).contains(&x) && (2..=5).contains(&y);
            let on_border = in_rect && (x == 2 || x == 6 || y == 2 || y == 5);
            if on_border {
                assert_eq!(g.get_block(x, y), BlockType::Freeze);
            } else {
                assert_eq!(g.get_block(x, y), BlockType::Hookable);
            }
        }
    }
}

#[test]
fn area_queries_are_exact() {
    let mut g = small_grid(BlockType::Hookable);
    g.set_area(&Position::new(1, 1), &Position::new(2, 2), &BlockType::Freeze, &Overwrite::Force);
    let tl = Position::new(0, 0);
    let br = Position::new(3, 3);
    assert_eq!(g.check_area_exists(&tl, &br, BlockType::Freeze), Ok(true));
    assert_eq!(g.check_area_exists(&tl, &br, BlockType::Empty), Ok(false));
    assert_eq!(g.check_area_all(&tl, &br, BlockType::Hookable), Ok(false));
    assert_eq!(
        g.check_area_all(&Position::new(1, 1), &Position::new(2, 2), BlockType::Freeze),
        Ok(true)
    );
    assert_eq!(g.count_occurence_in_area(&tl, &br, BlockType::Freeze), Ok(4));
    assert_eq!(g.count_occurence_in_area(&tl, &br, BlockType::Hookable), Ok(12));
}

#[test]
fn area_queries_reject_out_of_bounds() {
    let g = small_grid(BlockType::Hookable);
    let tl = Position::new(0, 0);
    let oob = Position::new(10, 0);
    assert_eq!(g.check_area_exists(&tl, &oob, BlockType::Freeze), Err(GenError::OutOfBounds));
    assert_eq!(g.check_area_all(&tl, &oob, BlockType::Freeze), Err(GenError::OutOfBounds));
    assert_eq!(
        g.count_occurence_in_area(&tl, &oob, BlockType::Freeze),
        Err(GenError::OutOfBounds)
    );
}

#[test]
fn generate_room_places_zone_border_and_platform() {
    let mut g = Grid::new(20, 20, BlockType::Hookable, Position::new(10, 10));
    let r = g.generate_room(&Position::new(10, 10), 4, 3, Some(BlockType::Start));
    assert!(r.is_ok());
    // Border of the 9x9 room carries the zone marker.
    assert_eq!(g.get_block(6, 6), BlockType::Start);
    assert_eq!(g.get_block(14, 14), BlockType::Start);
    assert_eq!(g.get_block(10, 6), BlockType::Start);
    // Interior is reserved-empty.
    assert_eq!(g.get_block(10, 10), BlockType::EmptyReserved);
    // Platform strip one row above the bottom border.
    for x in 7..=13 {
        assert_eq!(g.get_block(x, 13), BlockType::Platform, "platform at x {}", x);
    }
    assert_eq!(g.get_block(6, 13), BlockType::Start);
    // Outside untouched.
    assert_eq!(g.get_block(5, 5), BlockType::Hookable);
}

#[test]
fn generate_room_rejects_out_of_bounds() {
    let mut g = small_grid(BlockType::Hookable);
    let before = snapshot(&g);
    assert_eq!(
        g.generate_room(&Position::new(2, 2), 4, 3, Some(BlockType::Start)),
        Err(GenError::OutOfBounds)
    );
    assert_eq!(snapshot(&g), before);
}

#[test]
fn chunks_are_marked_only_where_mutated() {
    let mut g = small_grid(BlockType::Hookable);
    g.set_area(&Position::new(0, 0), &Position::new(1, 1), &BlockType::Freeze, &Overwrite::Force);
    assert!(g.chunk_edited(0, 0));
    assert!(!g.chunk_edited(1, 1));
    assert!(!g.chunk_edited(0, 1));
    assert!(!g.chunk_edited(1, 0));
}

#[test]
fn gen_error_messages() {
    assert_eq!(GenError::OutOfBounds.message(), "operation out of bounds");
    assert_eq!(GenError::InvalidConfig.message(), "invalid configuration");
    assert_eq!(GenError::KernelOutOfBounds.message(), "kernel out of bounds");
}

#[test]
fn clear_empties_cells_and_keeps_chunks() {
    let mut g = small_grid(BlockType::Hookable);
    g.set_area(&Position::new(0, 0), &Position::new(1, 1), &BlockType::Freeze, &Overwrite::Force);
    assert!(g.chunk_edited(0, 0));
    g.clear();
    for x in 0..10 {
        for y in 0..10 {
            assert_eq!(g.get_block(x, y), BlockType::Empty);
        }
    }
    // The dirty bitmap survives a clear.
    assert!(g.chunk_edited(0, 0));
}

#[test]
fn reshape_resets_grid_and_clamps_spawn() {
    let mut g = Grid::new(20, 20, BlockType::Hookable, Position::new(15, 18));
    g.set_area(&Position::new(0, 0), &Position::new(1, 1), &BlockType::Freeze, &Overwrite::Force);
    g.reshape(8, 6);
    assert_eq!(g.width(), 8);
    assert_eq!(g.height(), 6);
    assert_eq!(g.spawn(), Position::new(7, 5));
    for x in 0..8 {
        for y in 0..6 {
            assert_eq!(g.get_block(x, y), BlockType::Empty);
        }
    }
    assert!(!g.chunk_edited(0, 0));
}
