use mapgen::block::BlockType;
use mapgen::config::GenerationConfig;
use mapgen::error::GenError;
use mapgen::generator::{Generator, LEVEL_SIZE};
use mapgen::grid::Grid;
use mapgen::position::Position;
use mapgen::random::Seed;

fn count_blocks(g: &Grid, b: BlockType) -> usize {
    let mut n = 0;
    for x in 0..g.width() {
        for y in 0..g.height() {
            if g.get_block(x, y) == b {
                n += 1;
            }
        }
    }
    n
}

#[test]
fn default_config_is_valid() {
    let config = GenerationConfig::default();
    assert!(config.validate().is_ok());
}

#[test]
fn empty_waypoints_are_rejected() {
    let mut config = GenerationConfig::default();
    config.waypoints = Vec::new();
    assert_eq!(config.validate(), Err(GenError::InvalidConfig));
    assert!(matches!(Generator::new(&config, Seed(1)), Err(GenError::InvalidConfig)));
}

#[test]
fn zero_step_weights_are_rejected() {
    let mut config = GenerationConfig::default();
    config.step_weights = vec![0, 0, 0, 0];
    assert_eq!(config.validate(), Err(GenError::InvalidConfig));
}

#[test]
fn even_kernel_sizes_are_rejected() {
    let mut config = GenerationConfig::default();
    config.inner_size_probs.values = Some(vec![4, 6]);
    assert_eq!(config.validate(), Err(GenError::InvalidConfig));
}

#[test]
fn out_of_scale_probability_is_rejected() {
    let mut config = GenerationConfig::default();
    config.inner_rad_mut_prob = 1001;
    assert_eq!(config.validate(), Err(GenError::InvalidConfig));
}

#[test]
fn new_generator_starts_on_solid_grid() {
    let config = GenerationConfig::default();
    let gen = Generator::new(&config, Seed(7)).unwrap();
    assert_eq!(gen.map.width(), LEVEL_SIZE);
    assert_eq!(gen.map.height(), LEVEL_SIZE);
    assert!(!gen.walker.finished);
    assert_eq!(gen.walker.pos, Position::new(50, 250));
    assert_eq!(count_blocks(&gen.map, BlockType::Hookable), LEVEL_SIZE * LEVEL_SIZE);
}

#[test]
fn stepping_carves_the_grid() {
    let config = GenerationConfig::default();
    let mut gen = Generator::new(&config, Seed(3)).unwrap();
    for _ in 0..50 {
        gen.step(&config).unwrap();
    }
    assert!(count_blocks(&gen.map, BlockType::Empty) > 0);
    assert!(count_blocks(&gen.map, BlockType::Freeze) > 0);
}

#[test]
fn finished_flag_never_reverts() {
    let config = GenerationConfig::default();
    let mut gen = Generator::new(&config, Seed(11)).unwrap();
    let mut was_finished = false;
    for _ in 0..60000 {
        if gen.walker.finished {
            was_finished = true;
        }
        gen.step(&config).unwrap();
        if was_finished {
            assert!(gen.walker.finished);
        }
    }
}

fn grids_identical(a: &Grid, b: &Grid) -> bool {
    if a.width() != b.width() || a.height() != b.height() {
        return false;
    }
    for x in 0..a.width() {
        for y in 0..a.height() {
            if a.get_block(x, y) != b.get_block(x, y) {
                return false;
            }
        }
    }
    true
}

/// Two full runs with identical seed and configuration produce
/// bit-identical final grids.
#[test]
fn identical_seed_and_config_reproduce_the_map() {
    let config = GenerationConfig::default();
    let a = Generator::generate_map(100000, Seed(42), &config).unwrap();
    let b = Generator::generate_map(100000, Seed(42), &config).unwrap();
    assert!(grids_identical(&a, &b));
}

#[test]
fn different_seeds_give_different_maps() {
    let config = GenerationConfig::default();
    let a = Generator::generate_map(100000, Seed(42), &config).unwrap();
    let b = Generator::generate_map(100000, Seed(43), &config).unwrap();
    assert!(!grids_identical(&a, &b));
}

/// End to end: seed 42 on the default 300-by-300 configuration runs to
/// completion within the step budget; the result contains start and
/// finish markers, and after blob removal every remaining freeze
/// component is connected: it touches at least one solid
/// (Hookable-category) cell somewhere in its closure.
#[test]
fn end_to_end_seed_42() {
    let config = GenerationConfig::default();
    let map = Generator::generate_map(100000, Seed(42), &config).unwrap();
    assert_eq!(map.width(), 300);
    assert_eq!(map.height(), 300);
    assert!(count_blocks(&map, BlockType::Start) >= 1);
    assert!(count_blocks(&map, BlockType::Finish) >= 1);

    let w = map.width();
    let h = map.height();
    let touches_solid = |x: usize, y: usize| -> bool {
        for dx in -1i64..=1 {
            for dy in -1i64..=1 {
                if dx == 0 && dy == 0 {
                    continue;
                }
                let nx = x as i64 + dx;
                let ny = y as i64 + dy;
                if nx >= 0 && ny >= 0 && (nx as usize) < w && (ny as usize) < h {
                    if map.get_block(nx as usize, ny as usize).is_solid() {
                        return true;
                    }
                }
            }
        }
        false
    };

    // Flood-fill every interior freeze component the way the blob pass
    // defines them (4-connected) and demand each touches solid ground.
    let mut seen = vec![vec![false; h]; w];
    for sx in 1..w - 1 {
        for sy in 1..h - 1 {
            if seen[sx][sy] || map.get_block(sx, sy) != BlockType::Freeze {
                continue;
            }
            let mut stack = vec![(sx, sy)];
            seen[sx][sy] = true;
            let mut component = Vec::new();
            let mut connected = false;
            while let Some((x, y)) = stack.pop() {
                if touches_solid(x, y) {
                    connected = true;
                }
                component.push((x, y));
                for (nx, ny) in [(x - 1, y), (x + 1, y), (x, y - 1), (x, y + 1)] {
                    if nx >= 1 && nx < w - 1 && ny >= 1 && ny < h - 1 && !seen[nx][ny]
                        && map.get_block(nx, ny) == BlockType::Freeze
                    {
                        seen[nx][ny] = true;
                        stack.push((nx, ny));
                    }
                }
            }
            assert!(
                connected,
                "freeze component of {} cells at ({}, {}) touches no solid cell",
                component.len(),
                sx,
                sy
            );
        }
    }
}

#[test]
fn post_processing_records_debug_masks() {
    let config = GenerationConfig::default();
    let mut gen = Generator::new(&config, Seed(21)).unwrap();
    for _ in 0..2000 {
        gen.step(&config).unwrap();
    }
    gen.post_processing(&config).unwrap();
    // Every repaired edge bug was an empty cell next to a solid block in
    // the grid the pipeline started from; on this run some exist.
    let mut edge_bug_cells = 0;
    let mut blob_cells = 0;
    for x in 0..gen.map.width() {
        for y in 0..gen.map.height() {
            if gen.debug_layers.edge_bugs[x][y] {
                edge_bug_cells += 1;
            }
            if gen.debug_layers.blobs[x][y] {
                blob_cells += 1;
                // Every removed blob cell is empty in the final grid.
                assert_eq!(gen.map.get_block(x, y), BlockType::Empty);
            }
        }
    }
    assert!(edge_bug_cells > 0);
    let _ = blob_cells;
}

#[test]
fn default_preset_fields_are_fixed() {
    let c = GenerationConfig::default();
    assert_eq!(c.name, "default");
    assert_eq!(c.description, None);
    assert_eq!(c.inner_size_probs.values.as_deref(), Some(&[5, 7][..]));
    assert_eq!(c.inner_size_probs.probs, vec![700, 300]);
    assert_eq!(c.outer_margin_probs.values.as_deref(), Some(&[2][..]));
    assert_eq!(c.outer_margin_probs.probs, vec![1000]);
    assert_eq!(c.inner_rad_mut_prob, 250);
    assert_eq!(c.inner_size_mut_prob, 500);
    assert_eq!(c.outer_rad_mut_prob, 250);
    assert_eq!(c.outer_size_mut_prob, 500);
    assert_eq!(c.step_weights, vec![20, 11, 10, 9]);
    assert_eq!(c.waypoint_reached_dist, 100);
    assert_eq!(c.platform_distance_bounds, (200, 500));
    assert_eq!(c.max_distance, 3);
    assert_eq!(c.skip_length_bounds, (4, 15));
    assert_eq!(c.skip_min_spacing_sqr, 100);
    assert_eq!(c.waypoints.len(), 5);
    assert_eq!(c.waypoints[0], Position::new(250, 250));
    assert_eq!(c.waypoints[4], Position::new(250, 50));
}

#[test]
fn equal_skip_length_bounds_are_valid() {
    let mut config = GenerationConfig::default();
    config.skip_length_bounds = (5, 5);
    assert!(config.validate().is_ok());
}
