use mapgen::block::{BlockType, Overwrite};
use mapgen::grid::Grid;
use mapgen::position::{Position, ShiftDirection};
use mapgen::postprocess::{
    check_corner_skip, endpoint_masks, find_corners, fix_edge_bugs, fill_open_areas,
    generate_all_skips, remove_freeze_blobs, Skip,
};

fn empty_grid(w: usize, h: usize) -> Grid {
    Grid::new(w, h, BlockType::Empty, Position::new(w / 2, h / 2))
}

fn snapshot(g: &Grid) -> Vec<BlockType> {
    let mut cells = Vec::new();
    for x in 0..g.width() {
        for y in 0..g.height() {
            cells.push(g.get_block(x, y));
        }
    }
    cells
}

fn put(g: &mut Grid, x: usize, y: usize, b: BlockType) {
    g.set_area(&Position::new(x, y), &Position::new(x, y), &b, &Overwrite::Force);
}

#[test]
fn fix_edge_bugs_freezes_empty_next_to_hookable() {
    let mut g = empty_grid(8, 8);
    put(&mut g, 3, 3, BlockType::Hookable);
    let mask = fix_edge_bugs(&mut g);
    // All eight neighbors of the hookable cell were empty and become freeze.
    for x in 2..=4 {
        for y in 2..=4 {
            if x == 3 && y == 3 {
                assert_eq!(g.get_block(x, y), BlockType::Hookable);
                assert!(!mask[x][y]);
            } else {
                assert_eq!(g.get_block(x, y), BlockType::Freeze);
                assert!(mask[x][y]);
            }
        }
    }
    // A cell two steps away is untouched.
    assert_eq!(g.get_block(6, 6), BlockType::Empty);
    assert!(!mask[6][6]);
}

/// Applying the edge-bug fix twice yields the same grid as applying it
/// once.
#[test]
fn fix_edge_bugs_is_idempotent() {
    let mut g = empty_grid(16, 16);
    // An irregular solid shape with freeze and empty cells around it.
    put(&mut g, 4, 4, BlockType::Hookable);
    put(&mut g, 5, 4, BlockType::Hookable);
    put(&mut g, 5, 5, BlockType::Hookable);
    put(&mut g, 9, 9, BlockType::Hookable);
    put(&mut g, 10, 9, BlockType::Freeze);
    put(&mut g, 2, 12, BlockType::Platform);
    put(&mut g, 12, 2, BlockType::Start);
    fix_edge_bugs(&mut g);
    let once = snapshot(&g);
    fix_edge_bugs(&mut g);
    assert_eq!(snapshot(&g), once);
}

#[test]
fn fill_open_areas_classifies_by_distance() {
    let mut g = empty_grid(31, 31);
    put(&mut g, 15, 15, BlockType::Hookable);
    fill_open_areas(&mut g, 3);
    // Distance bounds: stay empty up to 3, freeze up to sqrt(19), hookable beyond.
    assert_eq!(g.get_block(15, 15), BlockType::Hookable);
    assert_eq!(g.get_block(15, 18), BlockType::Empty); // d^2 = 9
    assert_eq!(g.get_block(15, 19), BlockType::Freeze); // d^2 = 16
    assert_eq!(g.get_block(12, 12), BlockType::Freeze); // d^2 = 18
    assert_eq!(g.get_block(15, 20), BlockType::Hookable); // d^2 = 25
    assert_eq!(g.get_block(0, 0), BlockType::Hookable);
}

/// After the fill pass no previously non-empty cell has changed, and
/// every remaining empty cell is within the configured distance of a
/// non-empty cell.
#[test]
fn fill_open_areas_bounds_open_space() {
    let mut g = empty_grid(24, 24);
    put(&mut g, 4, 4, BlockType::Hookable);
    put(&mut g, 17, 12, BlockType::Freeze);
    put(&mut g, 9, 19, BlockType::Start);
    let before = snapshot(&g);
    let max_distance = 3usize;
    fill_open_areas(&mut g, max_distance);
    let after = snapshot(&g);
    for x in 0..24usize {
        for y in 0..24usize {
            let old = before[x * 24 + y];
            let new = after[x * 24 + y];
            if old != BlockType::Empty {
                assert_eq!(new, old, "non-empty cell ({}, {}) modified", x, y);
            }
            if new == BlockType::Empty {
                // Brute-force: some cell non-empty before the pass within
                // squared distance max_distance^2.
                let mut near_solid = false;
                for u in 0..24usize {
                    for v in 0..24usize {
                        if before[u * 24 + v] != BlockType::Empty {
                            let dx = x.abs_diff(u);
                            let dy = y.abs_diff(v);
                            if dx * dx + dy * dy <= max_distance * max_distance {
                                near_solid = true;
                            }
                        }
                    }
                }
                assert!(near_solid, "empty cell ({}, {}) too far from solid", x, y);
            }
        }
    }
}

#[test]
fn check_corner_skip_accepts_staged_sequence() {
    let mut g = empty_grid(12, 12);
    // Walking right from (3, 5): freeze, hookable, freeze, empty.
    put(&mut g, 4, 5, BlockType::Freeze);
    put(&mut g, 5, 5, BlockType::Hookable);
    put(&mut g, 6, 5, BlockType::Freeze);
    // (7, 5) stays empty: acceptance.
    let r = check_corner_skip(&g, &Position::new(3, 5), &ShiftDirection::Right, (1, 10));
    assert_eq!(r, Some((Position::new(7, 5), 4)));
}

#[test]
fn check_corner_skip_respects_length_bounds() {
    let mut g = empty_grid(12, 12);
    put(&mut g, 4, 5, BlockType::Freeze);
    put(&mut g, 5, 5, BlockType::Hookable);
    put(&mut g, 6, 5, BlockType::Freeze);
    // The minimum is inclusive: a length-4 tunnel passes with min == 4
    // and fails with min == 5.
    assert!(check_corner_skip(&g, &Position::new(3, 5), &ShiftDirection::Right, (4, 10)).is_some());
    assert!(check_corner_skip(&g, &Position::new(3, 5), &ShiftDirection::Right, (5, 10)).is_none());
    // Maximum bound cuts the walk short.
    assert!(check_corner_skip(&g, &Position::new(3, 5), &ShiftDirection::Right, (1, 3)).is_none());
}

#[test]
fn check_corner_skip_aborts_on_wrong_sequence() {
    let mut g = empty_grid(12, 12);
    put(&mut g, 4, 5, BlockType::Freeze);
    put(&mut g, 5, 5, BlockType::Start);
    let r = check_corner_skip(&g, &Position::new(3, 5), &ShiftDirection::Right, (1, 10));
    assert!(r.is_none());
}

#[test]
fn find_corners_detects_right_template() {
    let mut g = empty_grid(12, 12);
    let (x, y) = (5usize, 5usize);
    // First template for Right: (x, y+1) and the column x+1 from y-2 to y+1.
    put(&mut g, x, y + 1, BlockType::Freeze);
    put(&mut g, x + 1, y - 2, BlockType::Freeze);
    put(&mut g, x + 1, y - 1, BlockType::Freeze);
    put(&mut g, x + 1, y, BlockType::Freeze);
    put(&mut g, x + 1, y + 1, BlockType::Freeze);
    let candidates = find_corners(&g);
    assert!(
        candidates.contains(&(Position::new(x, y), ShiftDirection::Right)),
        "expected Right candidate, got {:?}",
        candidates
    );
}

#[test]
fn find_corners_empty_grid_has_no_candidates() {
    let g = empty_grid(12, 12);
    assert!(find_corners(&g).is_empty());
}

fn tunnel_pattern(g: &mut Grid, x: usize, y: usize) {
    // A corner candidate at (x, y) followed by a freeze-hookable-freeze
    // wall to the right and open space behind it.
    put(g, x, y + 1, BlockType::Freeze);
    put(g, x + 1, y - 2, BlockType::Freeze);
    put(g, x + 1, y - 1, BlockType::Freeze);
    put(g, x + 1, y, BlockType::Freeze);
    put(g, x + 1, y + 1, BlockType::Freeze);
    put(g, x + 2, y, BlockType::Hookable);
    put(g, x + 3, y, BlockType::Freeze);
}

/// No two accepted skips have start or end points closer than the
/// configured minimum spacing.
#[test]
fn accepted_skips_respect_min_spacing() {
    let mut g = empty_grid(24, 24);
    tunnel_pattern(&mut g, 5, 6);
    tunnel_pattern(&mut g, 5, 9);
    let min_spacing_sqr = 100usize;
    let (skips, valid) = generate_all_skips(&mut g, (1, 10), min_spacing_sqr);
    let accepted: Vec<usize> = (0..skips.len()).filter(|&i| valid[i]).collect();
    assert!(!accepted.is_empty(), "expected at least one accepted skip");
    for (ai, &i) in accepted.iter().enumerate() {
        for &j in accepted.iter().skip(ai + 1) {
            for a in [skips[i].start, skips[i].end] {
                for b in [skips[j].start, skips[j].end] {
                    let d = a.distance_squared(&b);
                    assert!(
                        d >= min_spacing_sqr,
                        "skips {} and {} too close: {}",
                        i,
                        j,
                        d
                    );
                }
            }
        }
    }
    // The two crafted tunnels conflict, so exactly one may survive.
    assert_eq!(accepted.len(), 1);
}

#[test]
fn generate_all_skips_carves_accepted_tunnel() {
    let mut g = empty_grid(24, 24);
    tunnel_pattern(&mut g, 5, 6);
    let (skips, valid) = generate_all_skips(&mut g, (1, 10), 100);
    assert!(skips.iter().zip(valid.iter()).any(|(_, &v)| v));
    // The wall cell on the tunnel line was dug empty.
    assert_eq!(g.get_block(7, 6), BlockType::Empty);
}

#[test]
fn remove_freeze_blobs_erases_isolated_component() {
    let mut g = empty_grid(16, 16);
    // An isolated 2x2 freeze blob.
    put(&mut g, 5, 5, BlockType::Freeze);
    put(&mut g, 6, 5, BlockType::Freeze);
    put(&mut g, 5, 6, BlockType::Freeze);
    put(&mut g, 6, 6, BlockType::Freeze);
    // A freeze cell attached to a solid block stays.
    put(&mut g, 11, 11, BlockType::Hookable);
    put(&mut g, 12, 11, BlockType::Freeze);
    let mask = remove_freeze_blobs(&mut g);
    for (x, y) in [(5, 5), (6, 5), (5, 6), (6, 6)] {
        assert_eq!(g.get_block(x, y), BlockType::Empty, "blob cell ({}, {})", x, y);
        assert!(mask[x][y]);
    }
    assert_eq!(g.get_block(12, 11), BlockType::Freeze);
    assert!(!mask[12][11]);
    assert_eq!(g.get_block(11, 11), BlockType::Hookable);
}

#[test]
fn remove_freeze_blobs_keeps_connected_chain() {
    let mut g = empty_grid(16, 16);
    // A freeze chain whose far end touches a solid block: the whole
    // component survives, even cells far from the solid one.
    put(&mut g, 4, 8, BlockType::Freeze);
    put(&mut g, 5, 8, BlockType::Freeze);
    put(&mut g, 6, 8, BlockType::Freeze);
    put(&mut g, 7, 8, BlockType::Freeze);
    put(&mut g, 8, 8, BlockType::Hookable);
    let mask = remove_freeze_blobs(&mut g);
    for x in 4..=7 {
        assert_eq!(g.get_block(x, 8), BlockType::Freeze);
        assert!(!mask[x][8]);
    }
}

#[test]
fn endpoint_masks_flag_exactly_the_endpoints() {
    let skips = vec![
        Skip {
            start: Position::new(2, 3),
            end: Position::new(6, 3),
            shift: ShiftDirection::Right,
            length: 4,
        },
        Skip {
            start: Position::new(1, 8),
            end: Position::new(1, 5),
            shift: ShiftDirection::Up,
            length: 3,
        },
    ];
    let valid = vec![true, false];
    let (accepted, rejected) = endpoint_masks(&skips, &valid, 10, 10);
    for x in 0..10 {
        for y in 0..10 {
            let expect_accepted = (x, y) == (2, 3) || (x, y) == (6, 3);
            let expect_rejected = (x, y) == (1, 8) || (x, y) == (1, 5);
            assert_eq!(accepted[x][y], expect_accepted, "accepted at ({}, {})", x, y);
            assert_eq!(rejected[x][y], expect_rejected, "rejected at ({}, {})", x, y);
        }
    }
}
