use mapgen::block::{BlockType, KernelType};
use mapgen::config::GenerationConfig;
use mapgen::grid::Grid;
use mapgen::kernel::Kernel;
use mapgen::position::Position;
use mapgen::random::{Random, Seed};
use mapgen::walker::CuteWalker;

fn test_walker(pos: Position, waypoints: Vec<Position>) -> CuteWalker {
    CuteWalker::new(pos, Kernel::new(3, 2), Kernel::new(5, 8), 2, waypoints)
}

#[test]
fn goal_reached_compares_squared_distance() {
    let w = test_walker(Position::new(10, 10), vec![Position::new(13, 14)]);
    // Squared distance to the goal is 25.
    assert_eq!(w.is_goal_reached(24), Some(false));
    assert_eq!(w.is_goal_reached(25), Some(true));
}

#[test]
fn goal_reached_is_none_once_finished() {
    let mut w = test_walker(Position::new(5, 5), vec![Position::new(5, 5)]);
    assert_eq!(w.is_goal_reached(0), Some(true));
    w.next_waypoint();
    assert!(w.finished);
    assert_eq!(w.is_goal_reached(1000), None);
}

#[test]
fn next_waypoint_advances_then_finishes() {
    let mut w = test_walker(
        Position::new(0, 0),
        vec![Position::new(1, 1), Position::new(2, 2), Position::new(3, 3)],
    );
    assert_eq!(w.goal_index, 0);
    w.next_waypoint();
    assert_eq!(w.goal_index, 1);
    assert!(!w.finished);
    w.next_waypoint();
    assert_eq!(w.goal_index, 2);
    assert!(!w.finished);
    w.next_waypoint();
    assert!(w.finished);
    w.next_waypoint();
    assert!(w.finished, "the finished flag never reverts");
}

#[test]
fn mutate_kernel_keeps_outer_margin_over_inner() {
    let config = GenerationConfig::default();
    let mut rnd = Random::new(Seed(9));
    let mut w = test_walker(Position::new(10, 10), vec![Position::new(50, 50)]);
    for _ in 0..200 {
        w.mutate_kernel(&config, &mut rnd);
        assert_eq!(w.outer_kernel.size, w.inner_kernel.size + w.outer_margin);
        assert!(w.inner_kernel.size % 2 == 1);
        assert!(w.outer_kernel.size % 2 == 1);
    }
}

#[test]
fn probabilistic_step_moves_one_cell_and_carves() {
    let config = GenerationConfig::default();
    let mut rnd = Random::new(Seed(4));
    let mut map = Grid::new(40, 40, BlockType::Hookable, Position::new(20, 20));
    let mut w = test_walker(Position::new(20, 20), vec![Position::new(30, 20)]);
    let before = w.pos;
    w.probabilistic_step(&mut map, &config, &mut rnd).unwrap();
    assert_eq!(before.distance_squared(&w.pos), 1);
    // The inner kernel dug the new position empty.
    assert_eq!(map.get_block(w.pos.x, w.pos.y), BlockType::Empty);
    // The outer kernel left a freeze buffer around the dug plus-shape.
    assert_eq!(map.get_block(w.pos.x + 2, w.pos.y), BlockType::Freeze);
}

#[test]
fn update_selects_kernel_by_type() {
    let mut map = Grid::new(40, 40, BlockType::Hookable, Position::new(20, 20));
    let w = test_walker(Position::new(20, 20), vec![Position::new(30, 20)]);
    map.update(&w, KernelType::Outer).unwrap();
    // The outer stamp froze the solid blocks under its mask.
    assert_eq!(map.get_block(20, 20), BlockType::Freeze);
    map.update(&w, KernelType::Inner).unwrap();
    // The inner stamp then dug its smaller footprint empty.
    assert_eq!(map.get_block(20, 20), BlockType::Empty);
    assert_eq!(map.get_block(20, 22), BlockType::Freeze);
}

#[test]
fn update_rejects_footprint_out_of_bounds() {
    let mut map = Grid::new(40, 40, BlockType::Hookable, Position::new(20, 20));
    let w = test_walker(Position::new(0, 0), vec![Position::new(30, 20)]);
    assert!(map.update(&w, KernelType::Inner).is_err());
    assert_eq!(map.get_block(0, 0), BlockType::Hookable);
}

#[test]
fn check_platform_forces_after_max_spacing() {
    let mut map = Grid::new(40, 40, BlockType::Empty, Position::new(20, 20));
    let mut w = test_walker(Position::new(20, 20), vec![Position::new(30, 20)]);
    // Below both bounds nothing is placed.
    w.check_platform(&mut map, 5, 10);
    assert_eq!(w.steps_since_platform, 1);
    assert_eq!(map.get_block(20, 20), BlockType::Empty);
    // Reaching the maximum forces a platform onto empty ground.
    w.steps_since_platform = 9;
    w.check_platform(&mut map, 5, 10);
    assert_eq!(w.steps_since_platform, 0);
    for x in 19..=21 {
        assert_eq!(map.get_block(x, 20), BlockType::Platform);
    }
    assert_eq!(map.get_block(18, 20), BlockType::Empty);
    assert_eq!(map.get_block(22, 20), BlockType::Empty);
}

#[test]
fn check_platform_places_early_with_footing() {
    let mut map = Grid::new(40, 40, BlockType::Empty, Position::new(20, 20));
    // Solid footing right below the walker's row.
    for x in 19..=21 {
        map.set_area(
            &Position::new(x, 21),
            &Position::new(x, 21),
            &BlockType::Hookable,
            &mapgen::block::Overwrite::Force,
        );
    }
    let mut w = test_walker(Position::new(20, 20), vec![Position::new(30, 20)]);
    w.steps_since_platform = 5;
    w.check_platform(&mut map, 5, 100);
    assert_eq!(w.steps_since_platform, 0);
    assert_eq!(map.get_block(20, 20), BlockType::Platform);
}

#[test]
fn check_platform_only_replaces_empty_cells() {
    let mut map = Grid::new(40, 40, BlockType::Freeze, Position::new(20, 20));
    let mut w = test_walker(Position::new(20, 20), vec![Position::new(30, 20)]);
    w.steps_since_platform = 99;
    w.check_platform(&mut map, 5, 100);
    // The strip held freeze, which the platform must not clobber.
    for x in 19..=21 {
        assert_eq!(map.get_block(x, 20), BlockType::Freeze);
    }
}

#[test]
fn unmutated_radius_is_kept() {
    // With every mutation gate closed the kernels never change at all.
    let mut config = GenerationConfig::default();
    config.inner_size_mut_prob = 0;
    config.inner_rad_mut_prob = 0;
    config.outer_size_mut_prob = 0;
    config.outer_rad_mut_prob = 0;
    let mut rnd = Random::new(Seed(31));
    let mut w = test_walker(Position::new(10, 10), vec![Position::new(50, 50)]);
    let inner_before = (w.inner_kernel.size, w.inner_kernel.max_distance_sqr);
    let outer_before = (w.outer_kernel.size, w.outer_kernel.max_distance_sqr);
    for _ in 0..20 {
        w.mutate_kernel(&config, &mut rnd);
        assert_eq!((w.inner_kernel.size, w.inner_kernel.max_distance_sqr), inner_before);
        assert_eq!((w.outer_kernel.size, w.outer_kernel.max_distance_sqr), outer_before);
    }
}
