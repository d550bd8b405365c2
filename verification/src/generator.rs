//! One generation session: the grid, the walker, the seeded random
//! source and the named debug masks, plus the stepping and
//! post-processing drivers that tie them together.

use vstd::prelude::*;

use crate::block::BlockType;
use crate::config::GenerationConfig;
use crate::error::GenError;
use crate::grid::{fill_rect, spec_in_rect, spec_room_block, spec_room_fits, Grid};
use crate::kernel::Kernel;
use crate::position::{spec_dist_sqr, Position};
use crate::postprocess::{
    endpoint_masks, fix_edge_bugs, fill_open_areas, generate_all_skips, remove_freeze_blobs,
    spec_carved_cell, spec_corner_candidates, spec_edge_fix_cell, spec_fill_cell,
    spec_has_hookable_neighbor, spec_has_solid_neighbor, spec_is_endpoint_mask, spec_scan_skips,
    spec_selection, spec_skips_compatible, spec_sort_skips, Skip,
};
use crate::random::{spec_next_state, spec_weight_prefix, Random, Seed};
use crate::walker::{
    spec_drawn_move, spec_move_candidates, spec_mutation, spec_next_platform_steps,
    spec_platform_placed, CuteWalker,
};
use crate::grid::spec_kernel_fits;

verus! {

/// Fixed edge length of a generated level.
pub const LEVEL_SIZE: usize = 300;

/// The three grids a pipeline chain passes through are all sound.
pub open spec fn spec_pipeline_stages(g1: Grid, g2: Grid, g3: Grid, g4: Grid) -> bool {
    g1.wf() && g2.wf() && g3.wf() && g4.wf()
}

/// Whether a step's goal check advances the waypoint: the walker is
/// unfinished and its active waypoint lies within the squared reach.
pub open spec fn spec_goal_advance(w: CuteWalker, reach: usize) -> bool {
    !w.finished && spec_dist_sqr(w.pos, w.waypoints@[w.goal_index as int]) <= reach
}

/// The waypoint index after a step's goal check.
pub open spec fn spec_stepped_goal_index(w: CuteWalker, reach: usize) -> int {
    if spec_goal_advance(w, reach) && w.goal_index + 1 < w.waypoints@.len() {
        w.goal_index + 1
    } else {
        w.goal_index as int
    }
}

/// The finished flag after a step's goal check.
pub open spec fn spec_stepped_finished(w: CuteWalker, reach: usize) -> bool {
    w.finished || (spec_goal_advance(w, reach) && w.goal_index + 1 >= w.waypoints@.len())
}

/// Named boolean masks the post-processing passes fill for external
/// visualization, one per pass that produces one.
#[derive(Debug)]
pub struct DebugLayers {
    /// Cells the edge-bug fix repaired.
    pub edge_bugs: Vec<Vec<bool>>,
    /// Endpoints of accepted skips.
    pub skips: Vec<Vec<bool>>,
    /// Endpoints of rejected skips.
    pub skips_invalid: Vec<Vec<bool>>,
    /// Cells removed as isolated freeze blobs.
    pub blobs: Vec<Vec<bool>>,
}

/// The mask has exactly the grid's dimensions.
pub open spec fn spec_layer_shape(layer: Vec<Vec<bool>>, w: int, h: int) -> bool {
    layer@.len() == w && forall|x: int| 0 <= x < w ==> (#[trigger] layer@[x])@.len() == h
}

impl DebugLayers {
    pub open spec fn wf(&self, w: int, h: int) -> bool {
        &&& spec_layer_shape(self.edge_bugs, w, h)
        &&& spec_layer_shape(self.skips, w, h)
        &&& spec_layer_shape(self.skips_invalid, w, h)
        &&& spec_layer_shape(self.blobs, w, h)
    }
}

/// A whole generation session. Grid, walker and random source are
/// created together from a configuration and a seed and live for the
/// session's duration.
#[derive(Debug)]
pub struct Generator {
    pub walker: CuteWalker,
    pub map: Grid,
    pub rnd: Random,
    pub debug_layers: DebugLayers,
}

impl Generator {
    /// Session invariant: a sound grid, walker and random source, with
    /// the walker inside the grid and the masks matching its dimensions.
    pub open spec fn wf(&self) -> bool {
        &&& self.map.wf()
        &&& self.walker.wf()
        &&& self.rnd.wf()
        &&& self.walker.pos.x < self.map.spec_width()
        &&& self.walker.pos.y < self.map.spec_height()
        &&& self.debug_layers.wf(self.map.spec_width(), self.map.spec_height())
    }

    /// Derives the initial session state from a configuration and seed:
    /// a solid grid with the spawn towards the bottom left, a walker with
    /// a size-5 inner and size-7 outer kernel, and the seeded random
    /// source. Rejects an invalid configuration.
    pub fn new(config: &GenerationConfig, seed: Seed) -> (r: Result<Generator, GenError>)
        ensures
            r is Ok <==> config.spec_valid(),
            r is Err ==> r->Err_0 == GenError::InvalidConfig,
            r is Ok ==> {
                let g = r->Ok_0;
                &&& g.wf()
                &&& g.map.spec_width() == LEVEL_SIZE
                &&& g.map.spec_height() == LEVEL_SIZE
                &&& !g.walker.finished
                &&& forall|x: int, y: int|
                    0 <= x < LEVEL_SIZE && 0 <= y < LEVEL_SIZE ==> #[trigger] g.map.block_at(x, y)
                        == BlockType::Hookable
            },
    {
        if let Err(e) = config.validate() {
            return Err(e);
        }
        let spawn = Position::new(50, 250);
        let map = Grid::new(LEVEL_SIZE, LEVEL_SIZE, BlockType::Hookable, spawn);
        let init_inner_kernel = Kernel::new(5, 8);
        let init_outer_kernel = Kernel::new(7, 18);
        let waypoints = config.waypoints.clone();
        proof {
            assert forall|i: int| 0 <= i < waypoints@.len() implies waypoints@[i]
                == config.waypoints@[i] by {}
            assert(waypoints@ =~= config.waypoints@);
        }
        let walker = CuteWalker::new(spawn, init_inner_kernel, init_outer_kernel, 2, waypoints);
        let rnd = Random::new(seed);
        let debug_layers = DebugLayers {
            edge_bugs: fill_rect(LEVEL_SIZE, LEVEL_SIZE, false),
            skips: fill_rect(LEVEL_SIZE, LEVEL_SIZE, false),
            skips_invalid: fill_rect(LEVEL_SIZE, LEVEL_SIZE, false),
            blobs: fill_rect(LEVEL_SIZE, LEVEL_SIZE, false),
        };
        Ok(Generator { walker, map, rnd, debug_layers })
    }

    /// One walker iteration: advance the waypoint when the active goal is
    /// within reach, then, unless the walker has finished, validate the
    /// configuration, mutate the kernels, take one probabilistic step
    /// with its carve, and lay a platform when due. The finished flag
    /// moves from false to true exactly once and never reverts.
    #[verifier::rlimit(100)]
    #[verifier::spinoff_prover]
    pub fn step(&mut self, config: &GenerationConfig) -> (r: Result<(), GenError>)
        requires
            old(self).wf(),
        ensures
            final(self).wf(),
            final(self).map.same_shape(&old(self).map),
            old(self).walker.finished ==> final(self).walker.finished,
            old(self).walker.finished ==> r is Ok && *final(self) == *old(self),
            // The goal check's transition is a function of the old state.
            final(self).walker.goal_index == spec_stepped_goal_index(
                old(self).walker,
                config.waypoint_reached_dist,
            ),
            final(self).walker.finished == spec_stepped_finished(
                old(self).walker,
                config.waypoint_reached_dist,
            ),
            final(self).walker.waypoints == old(self).walker.waypoints,
            // Success is owed exactly when the walker finishes at the goal
            // check, or the configuration is valid and the drawn move fits
            // both mutated kernels.
            r is Ok <==> (spec_stepped_finished(old(self).walker, config.waypoint_reached_dist)
                || (config.spec_valid() && ({
                let gi = spec_stepped_goal_index(old(self).walker, config.waypoint_reached_dist);
                let goal = old(self).walker.waypoints@[gi];
                let (isz, irad, mrg, orad, smut) = spec_mutation(
                    old(self).walker,
                    *config,
                    old(self).rnd.state_view(),
                );
                let cands = spec_move_candidates(old(self).walker.pos, goal,
                    old(self).map.spec_width(), old(self).map.spec_height());
                let drawn = spec_drawn_move(old(self).walker.pos, goal,
                    old(self).map.spec_width(), old(self).map.spec_height(),
                    config.step_weights@, smut);
                &&& cands.len() >= 1
                &&& spec_kernel_fits(drawn, isz as int, old(self).map.spec_width(),
                    old(self).map.spec_height())
                &&& spec_kernel_fits(drawn, (isz + mrg) as usize as int,
                    old(self).map.spec_width(), old(self).map.spec_height())
            }))),
            r is Err && r->Err_0 == GenError::InvalidConfig ==> !config.spec_valid(),
            !config.spec_valid() && !final(self).walker.finished ==> r is Err && r->Err_0
                == GenError::InvalidConfig,
            // On a successful unfinished step the walker lands exactly on
            // the weighted greedy draw, taken after the kernel mutation's
            // draws.
            r is Ok && !final(self).walker.finished ==> final(self).walker.pos == spec_drawn_move(
                old(self).walker.pos,
                old(self).walker.waypoints@[spec_stepped_goal_index(
                    old(self).walker,
                    config.waypoint_reached_dist,
                )],
                old(self).map.spec_width(),
                old(self).map.spec_height(),
                config.step_weights@,
                spec_mutation(old(self).walker, *config, old(self).rnd.state_view()).4,
            ),
            r is Ok && !final(self).walker.finished ==> spec_dist_sqr(
                old(self).walker.pos,
                final(self).walker.pos,
            ) == 1 && final(self).walker.pos.x < old(self).map.spec_width()
                && final(self).walker.pos.y < old(self).map.spec_height(),
            // On a successful unfinished step the grid is the double
            // kernel stamp of the old grid at the landing cell, followed
            // by the platform bookkeeping.
            r is Ok && !final(self).walker.finished ==> exists|m1: Grid|
                ({
                    let (isz, irad, mrg, orad, smut) = spec_mutation(
                        old(self).walker,
                        *config,
                        old(self).rnd.state_view(),
                    );
                    let w2 = final(self).walker;
                    &&& #[trigger] m1.wf()
                    &&& m1.same_shape(&old(self).map)
                    &&& (forall|x: int, y: int|
                        0 <= x < old(self).map.spec_width() && 0 <= y < old(
                            self,
                        ).map.spec_height() ==> #[trigger] m1.block_at(x, y)
                            == crate::walker::spec_double_stamp(
                            old(self).map.block_at(x, y),
                            final(self).walker.pos,
                            isz as int,
                            irad as int,
                            (isz + mrg) as usize as int,
                            orad as int,
                            x,
                            y,
                        ))
                    &&& (spec_platform_placed(
                        CuteWalker {
                            steps_since_platform: old(self).walker.steps_since_platform,
                            ..w2
                        },
                        m1,
                        config.platform_distance_bounds.0 as int,
                        config.platform_distance_bounds.1 as int,
                    ) ==> final(self).walker.steps_since_platform == 0)
                    &&& (!spec_platform_placed(
                        CuteWalker {
                            steps_since_platform: old(self).walker.steps_since_platform,
                            ..w2
                        },
                        m1,
                        config.platform_distance_bounds.0 as int,
                        config.platform_distance_bounds.1 as int,
                    ) ==> final(self).walker.steps_since_platform == spec_next_platform_steps(
                        old(self).walker.steps_since_platform as int,
                        config.platform_distance_bounds.1 as int,
                    ) && final(self).map.same_blocks(&m1))
                }),
            // The kernels, the margin and the generator state after an
            // unfinished valid step are functions of the old state; the
            // debug masks never change, and an invalid configuration
            // leaves everything but the goal bookkeeping untouched.
            !spec_stepped_finished(old(self).walker, config.waypoint_reached_dist)
                && config.spec_valid() ==> ({
                let (isz, irad, mrg, orad, smut) = spec_mutation(
                    old(self).walker,
                    *config,
                    old(self).rnd.state_view(),
                );
                let cands = spec_move_candidates(
                    old(self).walker.pos,
                    old(self).walker.waypoints@[spec_stepped_goal_index(
                        old(self).walker,
                        config.waypoint_reached_dist,
                    )],
                    old(self).map.spec_width(),
                    old(self).map.spec_height(),
                );
                &&& final(self).walker.inner_kernel.size == isz
                &&& final(self).walker.inner_kernel.max_distance_sqr == irad
                &&& final(self).walker.outer_margin == mrg
                &&& final(self).walker.outer_kernel.size == isz + mrg
                &&& final(self).walker.outer_kernel.max_distance_sqr == orad
            }),
            !spec_stepped_finished(old(self).walker, config.waypoint_reached_dist)
                && config.spec_valid() ==> ({
                let (isz, irad, mrg, orad, smut) = spec_mutation(
                    old(self).walker,
                    *config,
                    old(self).rnd.state_view(),
                );
                let cands = spec_move_candidates(
                    old(self).walker.pos,
                    old(self).walker.waypoints@[spec_stepped_goal_index(
                        old(self).walker,
                        config.waypoint_reached_dist,
                    )],
                    old(self).map.spec_width(),
                    old(self).map.spec_height(),
                );
                final(self).rnd.state_view() == (if spec_weight_prefix(
                    config.step_weights@.subrange(0, cands.len() as int),
                    cands.len() as int,
                ) == 0 {
                    smut
                } else {
                    spec_next_state(smut)
                })
            }),
            final(self).debug_layers == old(self).debug_layers,
            r is Err && r->Err_0 == GenError::InvalidConfig ==> final(self).map.same_blocks(
                &old(self).map,
            ) && final(self).rnd == old(self).rnd && final(self).walker.inner_kernel == old(
                self,
            ).walker.inner_kernel && final(self).walker.outer_kernel
                == old(self).walker.outer_kernel,
            r is Err ==> r->Err_0 == GenError::InvalidConfig || r->Err_0
                == GenError::KernelOutOfBounds || r->Err_0 == GenError::OutOfBounds,
    {
        match self.walker.is_goal_reached(config.waypoint_reached_dist) {
            Some(true) => {
                self.walker.next_waypoint();
            },
            _ => {},
        }

        if !self.walker.finished {
            if let Err(e) = config.validate() {
                return Err(e);
            }
            let ghost w1 = self.walker;
            proof {
                assert(self.rnd.state_view() == old(self).rnd.state_view());
            }
            self.walker.mutate_kernel(config, &mut self.rnd);
            proof {
                // The goal check touches neither kernels nor margin nor
                // the generator, so the mutation outcome reads the same
                // from either state.
                assert(spec_mutation(w1, *config, old(self).rnd.state_view()) == spec_mutation(
                    old(self).walker,
                    *config,
                    old(self).rnd.state_view(),
                ));
                let (isz, irad, mrg, orad, smut) = spec_mutation(old(self).walker, *config,
                    old(self).rnd.state_view());
                assert(self.walker.inner_kernel.size == isz);
                assert(self.walker.inner_kernel.max_distance_sqr == irad);
                assert(self.walker.outer_margin == mrg);
                assert(self.walker.outer_kernel.size == isz + mrg);
                assert(self.walker.outer_kernel.max_distance_sqr == orad);
                assert(self.rnd.state_view() == smut);
            }
            if let Err(e) = self.walker.probabilistic_step(&mut self.map, config, &mut self.rnd) {
                proof {
                    let (isz, irad, mrg, orad, smut) = spec_mutation(old(self).walker, *config,
                        old(self).rnd.state_view());
                    assert(self.walker.inner_kernel.size == isz);
                    assert(self.walker.inner_kernel.max_distance_sqr == irad);
                    assert(self.walker.outer_margin == mrg);
                    assert(self.walker.outer_kernel.size == isz + mrg);
                    assert(self.walker.outer_kernel.max_distance_sqr == orad);
                }
                return Err(e);
            }
            let ghost m1 = self.map;
            self.walker.check_platform(
                &mut self.map,
                config.platform_distance_bounds.0,
                config.platform_distance_bounds.1,
            );
            proof {
                assert(m1.wf() && m1.same_shape(&old(self).map));
                let (isz, irad, mrg, orad, smut) = spec_mutation(old(self).walker, *config,
                    old(self).rnd.state_view());
                assert(self.walker.inner_kernel.size == isz);
                assert(self.walker.inner_kernel.max_distance_sqr == irad);
                assert(self.walker.outer_margin == mrg);
                assert(self.walker.outer_kernel.size == isz + mrg);
                assert(self.walker.outer_kernel.max_distance_sqr == orad);
            }
        }

        Ok(())
    }

    /// The ordered post-processing pipeline, run once the walker has
    /// finished: repair edge bugs, carve the start room at the spawn and
    /// the finish room at the walker's final position, fill overly open
    /// areas, synthesize corner skips, and remove isolated freeze blobs.
    /// The debug masks record what each pass touched. On success the
    /// grid holds Finish-tagged cells, and Start-tagged cells whenever
    /// the two rooms do not overlap.
    #[verifier::rlimit(50)]
    pub fn post_processing(&mut self, config: &GenerationConfig) -> (r: Result<(), GenError>)
        requires
            old(self).wf(),
            config.spec_valid(),
        ensures
            final(self).wf(),
            final(self).map.same_shape(&old(self).map),
            r is Err ==> r->Err_0 == GenError::OutOfBounds,
            r is Ok <==> spec_room_fits(old(self).map.spec_spawn(), 4, 3,
                old(self).map.spec_width(), old(self).map.spec_height()) && spec_room_fits(
                old(self).walker.pos,
                4,
                3,
                old(self).map.spec_width(),
                old(self).map.spec_height(),
            ),
            r is Ok ==> forall|x: int, y: int|
                0 <= x < old(self).map.spec_width() && 0 <= y < old(self).map.spec_height()
                    && spec_in_rect(
                    Position {
                        x: (old(self).walker.pos.x - 4) as usize,
                        y: (old(self).walker.pos.y - 4) as usize,
                    },
                    Position {
                        x: (old(self).walker.pos.x + 4) as usize,
                        y: (old(self).walker.pos.y + 4) as usize,
                    },
                    x,
                    y,
                ) ==> #[trigger] final(self).map.block_at(x, y) == spec_room_block(
                    BlockType::Empty,
                    old(self).walker.pos,
                    4,
                    3,
                    Some(BlockType::Finish),
                    x,
                    y,
                ),
            r is Ok ==> exists|x: int, y: int|
                0 <= x < final(self).map.spec_width() && 0 <= y < final(self).map.spec_height()
                    && #[trigger] final(self).map.block_at(x, y) == BlockType::Finish,
            r is Ok && (crate::position::spec_abs_diff(
                old(self).map.spec_spawn().x as int,
                old(self).walker.pos.x as int,
            ) > 8 || crate::position::spec_abs_diff(
                old(self).map.spec_spawn().y as int,
                old(self).walker.pos.y as int,
            ) > 8) ==> exists|x: int, y: int|
                0 <= x < final(self).map.spec_width() && 0 <= y < final(self).map.spec_height()
                    && #[trigger] final(self).map.block_at(x, y) == BlockType::Start,
            r is Ok ==> forall|x: int, y: int|
                0 <= x < old(self).map.spec_width() && 0 <= y < old(self).map.spec_height()
                    ==> (#[trigger] final(self).debug_layers.edge_bugs@[x]@[y])
                    == (old(self).map.block_at(x, y) == BlockType::Empty
                    && spec_has_hookable_neighbor(old(self).map, x, y)),
            r is Ok ==> forall|x: int, y: int|
                0 <= x < old(self).map.spec_width() && 0 <= y < old(self).map.spec_height()
                    && (#[trigger] final(self).debug_layers.blobs@[x]@[y])
                    ==> final(self).map.block_at(x, y) == BlockType::Empty,
            // The whole pipeline, as a chain of intermediate grids: edge
            // repair, the two rooms, the distance fill, the skip carves
            // (whose selection also fills the two endpoint masks), and
            // finally the blob erasure recorded in the blobs mask.
            r is Ok ==> exists|g1: Grid, g2: Grid, g3: Grid, g4: Grid|
                ({
                    let w = old(self).map.spec_width();
                    let h = old(self).map.spec_height();
                    let scanned = spec_scan_skips(g3, spec_corner_candidates(g3),
                        spec_corner_candidates(g3).len() as int,
                        config.skip_length_bounds.0 as int, config.skip_length_bounds.1 as int);
                    let sorted = spec_sort_skips(scanned, scanned.len() as int);
                    let sel = spec_selection(sorted, config.skip_min_spacing_sqr as int);
                    &&& #[trigger] spec_pipeline_stages(g1, g2, g3, g4)
                    &&& g1.same_shape(&old(self).map) && g2.same_shape(&old(self).map)
                        && g3.same_shape(&old(self).map) && g4.same_shape(&old(self).map)
                    &&& (forall|x: int, y: int|
                        0 <= x < w && 0 <= y < h ==> #[trigger] g1.block_at(x, y)
                            == spec_edge_fix_cell(old(self).map, x, y))
                    &&& (forall|x: int, y: int|
                        0 <= x < w && 0 <= y < h ==> #[trigger] g2.block_at(x, y)
                            == spec_room_block(
                            spec_room_block(g1.block_at(x, y), old(self).map.spec_spawn(), 4, 3,
                                Some(BlockType::Start), x, y),
                            old(self).walker.pos,
                            4,
                            3,
                            Some(BlockType::Finish),
                            x,
                            y,
                        ))
                    &&& (forall|x: int, y: int|
                        0 <= x < w && 0 <= y < h ==> #[trigger] g3.block_at(x, y)
                            == spec_fill_cell(g2, config.max_distance as int, x, y))
                    &&& (forall|x: int, y: int|
                        0 <= x < w && 0 <= y < h ==> #[trigger] g4.block_at(x, y)
                            == spec_carved_cell(g3.block_at(x, y), sorted, sel,
                            sorted.len() as int, w, h, x, y))
                    &&& spec_is_endpoint_mask(final(self).debug_layers.skips, sorted, sel, true,
                        w, h)
                    &&& spec_is_endpoint_mask(final(self).debug_layers.skips_invalid, sorted, sel,
                        false, w, h)
                    &&& (forall|x: int, y: int|
                        0 <= x < w && 0 <= y < h ==> #[trigger] final(self).map.block_at(x, y) == (
                        if final(self).debug_layers.blobs@[x]@[y] {
                            BlockType::Empty
                        } else {
                            g4.block_at(x, y)
                        }))
                    &&& (forall|x: int, y: int|
                        0 <= x < w && 0 <= y < h && (#[trigger] final(self).debug_layers.blobs@[x]@[y])
                            ==> g4.block_at(x, y) == BlockType::Freeze && !spec_has_solid_neighbor(
                            g4,
                            x,
                            y,
                        ))
                }),
    {
        let edge_bugs = fix_edge_bugs(&mut self.map);
        let ghost g_edge = self.map;

        let spawn = self.map.spawn();
        if let Err(e) = self.map.generate_room(&spawn, 4, 3, Some(BlockType::Start)) {
            return Err(e);
        }
        let walker_pos = self.walker.pos;
        if let Err(e) = self.map.generate_room(&walker_pos, 4, 3, Some(BlockType::Finish)) {
            return Err(e);
        }
        let ghost rooms_done = self.map;
        let ghost g_rooms = self.map;
        let ghost finish_x = walker_pos.x - 4;
        let ghost finish_y = walker_pos.y - 4;
        let ghost start_x = spawn.x - 4;
        let ghost start_y = spawn.y - 4;
        proof {
            assert(rooms_done.block_at(finish_x, finish_y) == BlockType::Finish);
            // The spawn room's top-left corner carries the Start marker
            // unless the finish room's footprint covers it.
            if crate::position::spec_abs_diff(spawn.x as int, walker_pos.x as int) > 8
                || crate::position::spec_abs_diff(spawn.y as int, walker_pos.y as int) > 8 {
                assert(rooms_done.block_at(start_x, start_y) == BlockType::Start);
            }
        }

        fill_open_areas(&mut self.map, config.max_distance);
        let ghost g_fill = self.map;
        let (skips, valid) = generate_all_skips(
            &mut self.map,
            config.skip_length_bounds,
            config.skip_min_spacing_sqr,
        );
        let ghost g_carved = self.map;
        let blobs = remove_freeze_blobs(&mut self.map);
        proof {
            assert(self.map.block_at(finish_x, finish_y) == BlockType::Finish);
            if crate::position::spec_abs_diff(spawn.x as int, walker_pos.x as int) > 8
                || crate::position::spec_abs_diff(spawn.y as int, walker_pos.y as int) > 8 {
                assert(self.map.block_at(start_x, start_y) == BlockType::Start);
            }
            // Inside the finish room no later pass rewrites a cell: its
            // blocks are never Empty, Hookable or Freeze, which is all the
            // fill, skip and blob passes touch.
            let ftl = Position { x: (walker_pos.x - 4) as usize, y: (walker_pos.y - 4) as usize };
            let fbr = Position { x: (walker_pos.x + 4) as usize, y: (walker_pos.y + 4) as usize };
            assert forall|x: int, y: int|
                0 <= x < rooms_done.spec_width() && 0 <= y < rooms_done.spec_height()
                    && spec_in_rect(ftl, fbr, x, y) implies #[trigger] self.map.block_at(x, y)
                == spec_room_block(BlockType::Empty, walker_pos, 4, 3, Some(BlockType::Finish), x,
                y) by {
                let b = rooms_done.block_at(x, y);
                assert(b == spec_room_block(BlockType::Empty, walker_pos, 4, 3,
                    Some(BlockType::Finish), x, y));
                assert(b != BlockType::Empty && b != BlockType::Hookable && b != BlockType::Freeze);
            }
        }

        // Record the masks for external visualization.
        self.debug_layers.edge_bugs = edge_bugs;
        self.debug_layers.blobs = blobs;
        let w = self.map.width();
        let h = self.map.height();
        let (skip_mask, skip_mask_invalid) = endpoint_masks(&skips, &valid, w, h);
        self.debug_layers.skips = skip_mask;
        self.debug_layers.skips_invalid = skip_mask_invalid;
        proof {
            // The ghost snapshots taken between the passes witness the
            // pipeline chain, and the selection just computed witnesses
            // the mask contracts.
            assert(spec_pipeline_stages(g_edge, g_rooms, g_fill, g_carved));
            assert(spec_is_endpoint_mask(self.debug_layers.skips, skips@, valid@, true, w as int,
                h as int));
            assert(spec_is_endpoint_mask(self.debug_layers.skips_invalid, skips@, valid@, false,
                w as int, h as int));
        }

        proof {
            assert(self.map.block_at(finish_x, finish_y) == BlockType::Finish);
            if crate::position::spec_abs_diff(spawn.x as int, walker_pos.x as int) > 8
                || crate::position::spec_abs_diff(spawn.y as int, walker_pos.y as int) > 8 {
                assert(self.map.block_at(start_x, start_y) == BlockType::Start);
            }
        }
        Ok(())
    }

    /// Generates an entire map with a single call: run the walker up to
    /// `max_steps` iterations or until it finishes, then post-process.
    /// The result is a function of the seed and configuration alone, so
    /// identical inputs always reproduce the identical grid.
    #[verifier::rlimit(100)]
    pub fn generate_map(max_steps: usize, seed: Seed, config: &GenerationConfig) -> (r: Result<
        Grid,
        GenError,
    >)
        ensures
            r is Err && r->Err_0 == GenError::InvalidConfig <==> !config.spec_valid(),
            r is Err ==> r->Err_0 == GenError::InvalidConfig || r->Err_0
                == GenError::KernelOutOfBounds || r->Err_0 == GenError::OutOfBounds,
            r is Ok ==> {
                let g = r->Ok_0;
                &&& g.wf()
                &&& g.spec_width() == LEVEL_SIZE
                &&& g.spec_height() == LEVEL_SIZE
                &&& exists|x: int, y: int|
                    0 <= x < g.spec_width() && 0 <= y < g.spec_height() && #[trigger] g.block_at(
                        x,
                        y,
                    ) == BlockType::Finish
            },
            // On success both rooms fit: the spawn room at the fixed
            // spawn, the finish room at the walker's final position,
            // whose footprint the returned grid holds exactly; a Start
            // cell survives whenever the finish room stays clear of the
            // spawn room's corner.
            r is Ok ==> exists|p: Position|
                ({
                    let g = r->Ok_0;
                    &&& #[trigger] spec_room_fits(p, 4, 3, LEVEL_SIZE as int, LEVEL_SIZE as int)
                    &&& spec_room_fits(g.spec_spawn(), 4, 3, LEVEL_SIZE as int, LEVEL_SIZE as int)
                    &&& (forall|x: int, y: int|
                        0 <= x < LEVEL_SIZE && 0 <= y < LEVEL_SIZE && spec_in_rect(
                            Position { x: (p.x - 4) as usize, y: (p.y - 4) as usize },
                            Position { x: (p.x + 4) as usize, y: (p.y + 4) as usize },
                            x,
                            y,
                        ) ==> #[trigger] g.block_at(x, y) == spec_room_block(
                            BlockType::Empty,
                            p,
                            4,
                            3,
                            Some(BlockType::Finish),
                            x,
                            y,
                        ))
                    &&& ((crate::position::spec_abs_diff(g.spec_spawn().x as int, p.x as int) > 8
                        || crate::position::spec_abs_diff(g.spec_spawn().y as int, p.y as int)
                        > 8) ==> exists|x: int, y: int|
                        0 <= x < LEVEL_SIZE && 0 <= y < LEVEL_SIZE && #[trigger] g.block_at(x, y)
                            == BlockType::Start)
                }),
    {
        let mut gen = match Generator::new(config, seed) {
            Ok(g) => g,
            Err(e) => {
                return Err(e);
            },
        };

        let mut i: usize = 0;
        while i < max_steps && !gen.walker.finished
            invariant
                gen.wf(),
                gen.map.spec_width() == LEVEL_SIZE,
                gen.map.spec_height() == LEVEL_SIZE,
                config.spec_valid(),
            decreases max_steps - i,
        {
            if let Err(e) = gen.step(config) {
                return Err(e);
            }
            i = i + 1;
        }

        let ghost finish_pos = gen.walker.pos;
        if let Err(e) = gen.post_processing(config) {
            return Err(e);
        }
        proof {
            assert(spec_room_fits(finish_pos, 4, 3, LEVEL_SIZE as int, LEVEL_SIZE as int));
            assert(exists|x: int, y: int|
                0 <= x < gen.map.spec_width() && 0 <= y < gen.map.spec_height()
                    && #[trigger] gen.map.block_at(x, y) == BlockType::Finish);
        }

        Ok(gen.map)
    }
}

} // verus!
