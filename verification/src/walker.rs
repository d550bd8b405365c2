//! The walking agent: a position, an inner and an outer kernel, and an
//! ordered list of waypoints it seeks one after another. Each step it may
//! mutate its kernels, moves one cell picked by a weighted greedy choice,
//! carves the grid with the inner kernel and lays a freeze buffer with
//! the outer one.

use vstd::prelude::*;

use crate::block::{BlockType, KernelType};
use crate::config::GenerationConfig;
use crate::error::GenError;
use crate::grid::spec_num_chunks;
use crate::grid::{spec_kernel_fits, spec_kernel_stamp, spec_in_rect, Grid};
use crate::kernel::{spec_max_radius_sqr, spec_min_radius_sqr, spec_unique_radii, Kernel, MAX_KERNEL_SIZE};
use crate::position::{spec_abs_diff, spec_dist_sqr, Position, ShiftDirection, MAX_DIM};
use crate::random::{spec_gate_fires, spec_next_state, spec_weight_prefix, spec_weighted_index_of, Random};

verus! {

/// What an inner stamp of `Empty` followed by an outer stamp of `Freeze`,
/// both centered on `pos`, leaves in cell `(x, y)`: active inner cells
/// holding carveable blocks are dug empty, remaining carveable blocks
/// under active outer cells become freeze, everything else is untouched.
pub open spec fn spec_double_stamp(
    old_block: BlockType,
    pos: Position,
    inner_size: int,
    inner_rad: int,
    outer_size: int,
    outer_rad: int,
    x: int,
    y: int,
) -> BlockType {
    spec_kernel_stamp(
        spec_kernel_stamp(old_block, pos, inner_size, inner_rad, BlockType::Empty, x, y),
        pos,
        outer_size,
        outer_rad,
        BlockType::Freeze,
        x,
        y,
    )
}

impl Grid {
    /// Stamps one of the walker's kernels at its position: the inner
    /// kernel digs every carveable block to Empty, the outer one
    /// converts them to Freeze, building the hazard buffer. Rejects,
    /// mutating nothing, when the footprint exceeds the grid.
    pub fn update(&mut self, walker: &CuteWalker, kernel_type: KernelType) -> (r: Result<
        (),
        GenError,
    >)
        requires
            old(self).wf(),
            walker.inner_kernel.wf(),
            walker.outer_kernel.wf(),
        ensures
            final(self).wf(),
            final(self).same_shape(old(self)),
            ({
                let k = match kernel_type {
                    KernelType::Inner => walker.inner_kernel,
                    KernelType::Outer => walker.outer_kernel,
                };
                let v = match kernel_type {
                    KernelType::Inner => BlockType::Empty,
                    KernelType::Outer => BlockType::Freeze,
                };
                &&& (r is Ok <==> spec_kernel_fits(walker.pos, k.size as int,
                    old(self).spec_width(), old(self).spec_height()))
                &&& (r is Err ==> r->Err_0 == GenError::KernelOutOfBounds
                    && final(self).same_blocks(old(self)) && final(self).same_chunks(old(self)))
                &&& (r is Ok ==> forall|x: int, y: int|
                    0 <= x < old(self).spec_width() && 0 <= y < old(self).spec_height()
                        ==> #[trigger] final(self).block_at(x, y) == spec_kernel_stamp(
                        old(self).block_at(x, y),
                        walker.pos,
                        k.size as int,
                        k.max_distance_sqr as int,
                        v,
                        x,
                        y,
                    ))
            }),
            forall|cx: int, cy: int|
                0 <= cx < spec_num_chunks(old(self).spec_width()) && 0 <= cy < spec_num_chunks(
                    old(self).spec_height(),
                ) && old(self).chunk_at(cx, cy) ==> #[trigger] final(self).chunk_at(cx, cy),
    {
        let ok = match kernel_type {
            KernelType::Inner => self.apply_kernel(&walker.pos, &walker.inner_kernel,
                BlockType::Empty),
            KernelType::Outer => self.apply_kernel(&walker.pos, &walker.outer_kernel,
                BlockType::Freeze),
        };
        if ok {
            Ok(())
        } else {
            Err(GenError::KernelOutOfBounds)
        }
    }
}

/// The in-bounds one-cell moves from `pos`, each paired with the squared
/// distance its target keeps to `goal`, in the fixed direction order Up,
/// Right, Down, Left.
pub open spec fn spec_move_candidates(pos: Position, goal: Position, w: int, h: int) -> Seq<
    (usize, Position),
> {
    let up: Seq<(usize, Position)> = if pos.y >= 1 {
        seq![
            (
                spec_dist_sqr(Position { x: pos.x, y: (pos.y - 1) as usize }, goal) as usize,
                Position { x: pos.x, y: (pos.y - 1) as usize },
            ),
        ]
    } else {
        Seq::empty()
    };
    let right: Seq<(usize, Position)> = if pos.x + 1 < w {
        seq![
            (
                spec_dist_sqr(Position { x: (pos.x + 1) as usize, y: pos.y }, goal) as usize,
                Position { x: (pos.x + 1) as usize, y: pos.y },
            ),
        ]
    } else {
        Seq::empty()
    };
    let down: Seq<(usize, Position)> = if pos.y + 1 < h {
        seq![
            (
                spec_dist_sqr(Position { x: pos.x, y: (pos.y + 1) as usize }, goal) as usize,
                Position { x: pos.x, y: (pos.y + 1) as usize },
            ),
        ]
    } else {
        Seq::empty()
    };
    let left: Seq<(usize, Position)> = if pos.x >= 1 {
        seq![
            (
                spec_dist_sqr(Position { x: (pos.x - 1) as usize, y: pos.y }, goal) as usize,
                Position { x: (pos.x - 1) as usize, y: pos.y },
            ),
        ]
    } else {
        Seq::empty()
    };
    up + right + down + left
}

/// Where a stable insertion by ascending distance puts `e`: before the
/// first entry whose distance is strictly larger, after every entry at
/// most as far.
pub open spec fn spec_insert_ranked(s: Seq<(usize, Position)>, e: (usize, Position)) -> Seq<
    (usize, Position),
>
    decreases s.len(),
{
    if s.len() == 0 {
        seq![e]
    } else if s[0].0 > e.0 {
        seq![e] + s
    } else {
        seq![s[0]] + spec_insert_ranked(s.drop_first(), e)
    }
}

/// The first `n` candidates, stably sorted by ascending distance: ties
/// keep the fixed direction order.
pub open spec fn spec_rank_moves(s: Seq<(usize, Position)>, n: int) -> Seq<(usize, Position)>
    decreases n,
{
    if n <= 0 {
        Seq::empty()
    } else {
        spec_insert_ranked(spec_rank_moves(s, n - 1), s[n - 1])
    }
}

/// The move a walker at `pos` draws from generator state `state`: the
/// entry of the ranked move list selected by the step weights, truncated
/// to the number of possible moves.
pub open spec fn spec_drawn_move(
    pos: Position,
    goal: Position,
    w: int,
    h: int,
    weights: Seq<u32>,
    state: u64,
) -> Position {
    let cands = spec_move_candidates(pos, goal, w, h);
    let ranked = spec_rank_moves(cands, cands.len() as int);
    ranked[spec_weighted_index_of(weights.subrange(0, cands.len() as int), state)].1
}

/// Stable insertion lands exactly at the first index whose distance
/// exceeds the new entry's.
proof fn lemma_insert_ranked_at(s: Seq<(usize, Position)>, e: (usize, Position), at: int)
    requires
        0 <= at <= s.len(),
        forall|j: int| 0 <= j < at ==> (#[trigger] s[j]).0 <= e.0,
        at < s.len() ==> s[at].0 > e.0,
    ensures
        spec_insert_ranked(s, e) == s.insert(at, e),
    decreases s.len(),
{
    s.insert_ensures(at, e);
    if s.len() == 0 {
        assert(spec_insert_ranked(s, e) =~= s.insert(at, e));
    } else if s[0].0 > e.0 {
        assert(at == 0);
        assert(spec_insert_ranked(s, e) =~= s.insert(0, e));
    } else {
        assert(at >= 1);
        let tail = s.drop_first();
        lemma_insert_ranked_at(tail, e, at - 1);
        tail.insert_ensures(at - 1, e);
        assert(spec_insert_ranked(s, e) =~= s.insert(at, e)) by {
            assert(forall|k: int|
                0 <= k < tail.len() ==> (#[trigger] tail[k]) == s[k + 1]);
        }
    }
}

/// The stateful agent that digs the playable path.
#[derive(Debug)]
pub struct CuteWalker {
    /// Current position, always inside the grid it walks.
    pub pos: Position,
    /// Kernel that digs the path empty.
    pub inner_kernel: Kernel,
    /// Kernel that converts the surrounding solid blocks to freeze.
    pub outer_kernel: Kernel,
    /// Extra edge length the outer kernel keeps over the inner one.
    pub outer_margin: usize,
    /// Ordered goals; `goal_index` points at the active one.
    pub waypoints: Vec<Position>,
    pub goal_index: usize,
    /// Set once, when the last waypoint is reached; never reverts.
    pub finished: bool,
    /// Steps taken since a platform was last laid down.
    pub steps_since_platform: usize,
}

impl CuteWalker {
    /// Structural invariant: sound kernels, an active goal unless
    /// finished, and waypoint coordinates small enough for squared
    /// distances to stay in range.
    pub open spec fn wf(&self) -> bool {
        &&& self.inner_kernel.wf()
        &&& self.outer_kernel.wf()
        &&& self.waypoints@.len() >= 1
        &&& self.goal_index <= self.waypoints@.len()
        &&& !self.finished ==> self.goal_index < self.waypoints@.len()
        &&& forall|i: int|
            0 <= i < self.waypoints@.len() ==> (#[trigger] self.waypoints@[i]).x <= MAX_DIM
                && self.waypoints@[i].y <= MAX_DIM
    }

    /// A fresh walker at `pos`, unfinished, aimed at the first waypoint.
    pub fn new(
        pos: Position,
        inner_kernel: Kernel,
        outer_kernel: Kernel,
        outer_margin: usize,
        waypoints: Vec<Position>,
    ) -> (w: CuteWalker)
        requires
            inner_kernel.wf(),
            outer_kernel.wf(),
            waypoints@.len() >= 1,
            forall|i: int|
                0 <= i < waypoints@.len() ==> (#[trigger] waypoints@[i]).x <= MAX_DIM
                    && waypoints@[i].y <= MAX_DIM,
        ensures
            w.wf(),
            w.pos == pos,
            w.goal_index == 0,
            !w.finished,
            w.steps_since_platform == 0,
            w.waypoints@ == waypoints@,
            w.inner_kernel == inner_kernel,
            w.outer_kernel == outer_kernel,
    {
        CuteWalker {
            pos,
            inner_kernel,
            outer_kernel,
            outer_margin,
            waypoints,
            goal_index: 0,
            finished: false,
            steps_since_platform: 0,
        }
    }

    /// Whether the active waypoint is within the squared reach distance;
    /// `None` once the walker has finished.
    pub fn is_goal_reached(&self, waypoint_reached_dist: usize) -> (r: Option<bool>)
        requires
            self.wf(),
            self.pos.x <= MAX_DIM,
            self.pos.y <= MAX_DIM,
        ensures
            r is None <==> self.finished,
            r is Some ==> r->0 == (spec_dist_sqr(self.pos, self.waypoints@[self.goal_index as int])
                <= waypoint_reached_dist),
    {
        if self.finished {
            return None;
        }
        let goal = self.waypoints[self.goal_index];
        Some(self.pos.distance_squared(&goal) <= waypoint_reached_dist)
    }

    /// Advances to the next waypoint, or finishes when none remain. The
    /// finished flag only ever moves from false to true.
    pub fn next_waypoint(&mut self)
        requires
            old(self).wf(),
        ensures
            final(self).wf(),
            final(self).pos == old(self).pos,
            final(self).waypoints == old(self).waypoints,
            final(self).inner_kernel == old(self).inner_kernel,
            final(self).outer_kernel == old(self).outer_kernel,
            final(self).outer_margin == old(self).outer_margin,
            final(self).steps_since_platform == old(self).steps_since_platform,
            old(self).finished ==> final(self).finished,
            old(self).goal_index + 1 < old(self).waypoints@.len()
                ==> final(self).goal_index == old(self).goal_index + 1
                && final(self).finished == old(self).finished,
            old(self).goal_index + 1 >= old(self).waypoints@.len() ==> final(self).finished
                && final(self).goal_index == old(self).goal_index,
    {
        if self.goal_index < self.waypoints.len() - 1 {
            self.goal_index = self.goal_index + 1;
        } else {
            self.finished = true;
        }
    }

    /// Randomly mutates the kernel pair: the inner size and radius and
    /// the outer margin and radius each mutate with their configured
    /// probability, and otherwise keep their current value; a size change
    /// invalidating the kept radius resets it to the corner bound. The
    /// outer kernel always keeps its margin over the inner size, so the
    /// freeze buffer never vanishes. The outcome is exactly
    /// [`spec_mutation`] of the old walker, the configuration and the
    /// generator state.
    #[verifier::rlimit(100)]
    pub fn mutate_kernel(&mut self, config: &GenerationConfig, rnd: &mut Random)
        requires
            old(self).wf(),
            config.spec_valid(),
            old(rnd).wf(),
        ensures
            final(self).wf(),
            final(rnd).wf(),
            final(self).pos == old(self).pos,
            final(self).waypoints == old(self).waypoints,
            final(self).goal_index == old(self).goal_index,
            final(self).finished == old(self).finished,
            final(self).steps_since_platform == old(self).steps_since_platform,
            final(self).outer_kernel.size == final(self).inner_kernel.size
                + final(self).outer_margin,
            ({
                let (isz, irad, mrg, orad, sfin) = spec_mutation(
                    *old(self),
                    *config,
                    old(rnd).state_view(),
                );
                &&& final(self).inner_kernel.size == isz
                &&& final(self).inner_kernel.max_distance_sqr == irad
                &&& final(self).outer_margin == mrg
                &&& final(self).outer_kernel.size == isz + mrg
                &&& final(self).outer_kernel.max_distance_sqr == orad
                &&& final(rnd).state_view() == sfin
            }),
    {
        let old_inner_size = self.inner_kernel.size;
        let old_inner_radius = self.inner_kernel.max_distance_sqr;
        let old_outer_size = self.outer_kernel.size;
        let old_outer_radius = self.outer_kernel.max_distance_sqr;

        let mut inner_size: usize = old_inner_size;
        if !(inner_size <= 16383 && inner_size % 2 == 1) {
            inner_size = 5;
        }
        if rnd.gate(config.inner_size_mut_prob) {
            let sampled = config.inner_size_probs.sample_value(rnd);
            if sampled % 2 == 1 && 3 <= sampled && sampled <= 16383 {
                inner_size = sampled;
            }
        }

        let inner_radius: usize = if rnd.gate(config.inner_rad_mut_prob) {
            let radii = Kernel::get_unique_radii_sqr(inner_size);
            let idx = rnd.in_range(radii.len());
            radii[idx]
        } else if inner_size == old_inner_size && Kernel::is_valid_radius(
            inner_size,
            old_inner_radius,
        ) {
            old_inner_radius
        } else {
            Kernel::get_valid_radius_bounds(inner_size).1
        };
        self.inner_kernel = Kernel::new(inner_size, inner_radius);

        if self.outer_margin > MAX_KERNEL_SIZE - 16383 || self.outer_margin % 2 != 0 {
            self.outer_margin = 2;
        }
        if rnd.gate(config.outer_size_mut_prob) {
            let sampled = config.outer_margin_probs.sample_value(rnd);
            if sampled % 2 == 0 && sampled <= MAX_KERNEL_SIZE - 16383 {
                self.outer_margin = sampled;
            }
        }
        let outer_size = inner_size + self.outer_margin;

        let outer_radius: usize = if rnd.gate(config.outer_rad_mut_prob) {
            let radii = Kernel::get_unique_radii_sqr(outer_size);
            let idx = rnd.in_range(radii.len());
            radii[idx]
        } else if outer_size == old_outer_size && Kernel::is_valid_radius(
            outer_size,
            old_outer_radius,
        ) {
            old_outer_radius
        } else {
            Kernel::get_valid_radius_bounds(outer_size).1
        };
        self.outer_kernel = Kernel::new(outer_size, outer_radius);
    }

    /// Moves one cell towards the active waypoint and carves: the four
    /// cardinal moves that stay inside the grid are ranked by how close
    /// they bring the walker to the goal, one is drawn by the configured
    /// rank weights, and the inner (dig) and outer (freeze buffer)
    /// kernels are stamped at the new position, in that order. Fails
    /// without mutating the grid when no move stays inside or the inner
    /// kernel would not fit; fails after digging when only the outer
    /// kernel does not fit.
    #[verifier::rlimit(100)]
    pub fn probabilistic_step(
        &mut self,
        map: &mut Grid,
        config: &GenerationConfig,
        rnd: &mut Random,
    ) -> (r: Result<(), GenError>)
        requires
            old(self).wf(),
            old(map).wf(),
            config.spec_valid(),
            old(rnd).wf(),
            !old(self).finished,
            old(self).pos.x < old(map).spec_width(),
            old(self).pos.y < old(map).spec_height(),
        ensures
            final(self).wf(),
            final(map).wf(),
            final(rnd).wf(),
            final(map).same_shape(old(map)),
            final(self).pos.x < old(map).spec_width(),
            final(self).pos.y < old(map).spec_height(),
            final(self).waypoints == old(self).waypoints,
            final(self).goal_index == old(self).goal_index,
            final(self).finished == old(self).finished,
            final(self).inner_kernel == old(self).inner_kernel,
            final(self).outer_kernel == old(self).outer_kernel,
            final(self).outer_margin == old(self).outer_margin,
            final(self).steps_since_platform == old(self).steps_since_platform,
            r is Ok <==> ({
                let cands = spec_move_candidates(
                    old(self).pos,
                    old(self).waypoints@[old(self).goal_index as int],
                    old(map).spec_width(),
                    old(map).spec_height(),
                );
                let drawn = spec_drawn_move(
                    old(self).pos,
                    old(self).waypoints@[old(self).goal_index as int],
                    old(map).spec_width(),
                    old(map).spec_height(),
                    config.step_weights@,
                    old(rnd).state_view(),
                );
                &&& cands.len() >= 1
                &&& spec_kernel_fits(drawn, old(self).inner_kernel.size as int,
                    old(map).spec_width(), old(map).spec_height())
                &&& spec_kernel_fits(drawn, old(self).outer_kernel.size as int,
                    old(map).spec_width(), old(map).spec_height())
            }),
            r is Ok ==> spec_dist_sqr(old(self).pos, final(self).pos) == 1,
            r is Ok ==> spec_move_candidates(
                old(self).pos,
                old(self).waypoints@[old(self).goal_index as int],
                old(map).spec_width(),
                old(map).spec_height(),
            ).len() >= 1 && final(self).pos == spec_drawn_move(
                old(self).pos,
                old(self).waypoints@[old(self).goal_index as int],
                old(map).spec_width(),
                old(map).spec_height(),
                config.step_weights@,
                old(rnd).state_view(),
            ),
            // The generator state is consumed exactly when a weighted
            // draw happens: one step past the incoming state unless the
            // applicable weights sum to zero or no move exists.
            final(rnd).state_view() == (if spec_weight_prefix(
                config.step_weights@.subrange(
                    0,
                    spec_move_candidates(
                        old(self).pos,
                        old(self).waypoints@[old(self).goal_index as int],
                        old(map).spec_width(),
                        old(map).spec_height(),
                    ).len() as int,
                ),
                spec_move_candidates(
                    old(self).pos,
                    old(self).waypoints@[old(self).goal_index as int],
                    old(map).spec_width(),
                    old(map).spec_height(),
                ).len() as int,
            ) == 0 {
                old(rnd).state_view()
            } else {
                spec_next_state(old(rnd).state_view())
            }),
            r is Ok ==> spec_kernel_fits(final(self).pos, old(self).inner_kernel.size as int,
                old(map).spec_width(), old(map).spec_height()) && spec_kernel_fits(
                final(self).pos,
                old(self).outer_kernel.size as int,
                old(map).spec_width(),
                old(map).spec_height(),
            ),
            r is Ok ==> forall|x: int, y: int|
                0 <= x < old(map).spec_width() && 0 <= y < old(map).spec_height()
                    ==> #[trigger] final(map).block_at(x, y) == spec_double_stamp(
                    old(map).block_at(x, y),
                    final(self).pos,
                    old(self).inner_kernel.size as int,
                    old(self).inner_kernel.max_distance_sqr as int,
                    old(self).outer_kernel.size as int,
                    old(self).outer_kernel.max_distance_sqr as int,
                    x,
                    y,
                ),
            r is Err ==> (r->Err_0 == GenError::OutOfBounds && final(map).same_blocks(old(map)))
                || (r->Err_0 == GenError::KernelOutOfBounds && (final(map).same_blocks(old(map))
                || forall|x: int, y: int|
                    0 <= x < old(map).spec_width() && 0 <= y < old(map).spec_height()
                        ==> #[trigger] final(map).block_at(x, y) == spec_kernel_stamp(
                        old(map).block_at(x, y),
                        final(self).pos,
                        old(self).inner_kernel.size as int,
                        old(self).inner_kernel.max_distance_sqr as int,
                        BlockType::Empty,
                        x,
                        y,
                    ))),
    {
        let goal = self.waypoints[self.goal_index];
        let w = map.width();
        let h = map.height();
        let ghost cands = spec_move_candidates(self.pos, goal, w as int, h as int);

        // The four cardinal moves in their fixed order, kept when they
        // stay inside the grid.
        let mut candidates: Vec<(usize, Position)> = Vec::new();
        if self.pos.y >= 1 {
            let p = Position::new(self.pos.x, self.pos.y - 1);
            proof {
                lemma_unit_dist(self.pos, p);
            }
            candidates.push((p.distance_squared(&goal), p));
        }
        if self.pos.x + 1 < w {
            let p = Position::new(self.pos.x + 1, self.pos.y);
            proof {
                lemma_unit_dist(self.pos, p);
            }
            candidates.push((p.distance_squared(&goal), p));
        }
        if self.pos.y + 1 < h {
            let p = Position::new(self.pos.x, self.pos.y + 1);
            proof {
                lemma_unit_dist(self.pos, p);
            }
            candidates.push((p.distance_squared(&goal), p));
        }
        if self.pos.x >= 1 {
            let p = Position::new(self.pos.x - 1, self.pos.y);
            proof {
                lemma_unit_dist(self.pos, p);
            }
            candidates.push((p.distance_squared(&goal), p));
        }
        proof {
            assert(candidates@ =~= cands);
            assert forall|k: int| 0 <= k < candidates@.len() implies (#[trigger] candidates@[k]).1.x
                < w && candidates@[k].1.y < h && spec_dist_sqr(self.pos, candidates@[k].1)
                == 1 by {}
        }

        if candidates.len() == 0 {
            return Err(GenError::OutOfBounds);
        }

        // Rank the candidate moves by distance to the goal, best first;
        // insertion keeps the fixed direction order among ties.
        let mut ranked: Vec<(usize, Position)> = Vec::new();
        let mut i: usize = 0;
        while i < candidates.len()
            invariant
                self.wf(),
                map.wf(),
                w == map.spec_width(),
                h == map.spec_height(),
                i <= candidates@.len(),
                candidates@.len() <= 4,
                candidates@ == cands,
                ranked@.len() == i,
                ranked@ == spec_rank_moves(cands, i as int),
                forall|k: int|
                    0 <= k < candidates@.len() ==> (#[trigger] candidates@[k]).1.x < w
                        && candidates@[k].1.y < h && spec_dist_sqr(self.pos, candidates@[k].1)
                        == 1,
                forall|k: int|
                    0 <= k < ranked@.len() ==> (#[trigger] ranked@[k]).1.x < w
                        && ranked@[k].1.y < h && spec_dist_sqr(self.pos, ranked@[k].1) == 1,
            decreases candidates@.len() - i,
        {
            let entry = candidates[i];
            let mut at: usize = 0;
            while at < ranked.len()
                invariant_except_break
                    at <= ranked@.len(),
                    forall|j: int| 0 <= j < at ==> (#[trigger] ranked@[j]).0 <= entry.0,
                ensures
                    at <= ranked@.len(),
                    forall|j: int| 0 <= j < at ==> (#[trigger] ranked@[j]).0 <= entry.0,
                    at < ranked@.len() ==> ranked@[at as int].0 > entry.0,
                decreases ranked@.len() - at,
            {
                if ranked[at].0 > entry.0 {
                    break ;
                }
                at = at + 1;
            }
            let ghost before = ranked@;
            ranked.insert(at, entry);
            proof {
                lemma_insert_ranked_at(before, entry, at as int);
                before.insert_ensures(at as int, entry);
            }
            i = i + 1;
        }

        // The first weight applies to the best-ranked move, and so on.
        let mut weights: Vec<u32> = Vec::new();
        let mut wi: usize = 0;
        while wi < ranked.len()
            invariant
                self.wf(),
                map.wf(),
                w == map.spec_width(),
                h == map.spec_height(),
                wi <= ranked@.len(),
                ranked@.len() <= 4,
                weights@.len() == wi,
                config.spec_valid(),
                weights@ == config.step_weights@.subrange(0, wi as int),
                forall|k: int|
                    0 <= k < ranked@.len() ==> (#[trigger] ranked@[k]).1.x < w
                        && ranked@[k].1.y < h && spec_dist_sqr(self.pos, ranked@[k].1) == 1,
            decreases ranked@.len() - wi,
        {
            let ghost wbefore = weights@;
            weights.push(config.step_weights[wi]);
            proof {
                assert(weights@ =~= config.step_weights@.subrange(0, wi + 1)) by {
                    assert(weights@ =~= wbefore.push(config.step_weights@[wi as int]));
                }
            }
            wi = wi + 1;
        }

        let idx = rnd.weighted_index(&weights);
        let next_pos = ranked[idx].1;
        proof {
            assert(next_pos == spec_drawn_move(self.pos, goal, w as int, h as int,
                config.step_weights@, old(rnd).state_view()));
            assert(next_pos.x < w && next_pos.y < h);
            assert(spec_dist_sqr(self.pos, next_pos) == 1);
        }
        self.pos = next_pos;

        let ghost m0 = *map;
        if let Err(e) = map.update(self, KernelType::Inner) {
            return Err(e);
        }
        let ghost m1 = *map;
        if let Err(e) = map.update(self, KernelType::Outer) {
            proof {
                assert forall|x: int, y: int|
                    0 <= x < m0.spec_width() && 0 <= y < m0.spec_height() implies #[trigger] map
                    .block_at(x, y) == spec_kernel_stamp(
                    m0.block_at(x, y),
                    next_pos,
                    self.inner_kernel.size as int,
                    self.inner_kernel.max_distance_sqr as int,
                    BlockType::Empty,
                    x,
                    y,
                ) by {
                    let b1 = m1.block_at(x, y);
                }
            }
            return Err(e);
        }
        proof {
            assert forall|x: int, y: int|
                0 <= x < m0.spec_width() && 0 <= y < m0.spec_height() implies #[trigger] map
                .block_at(x, y) == spec_double_stamp(
                m0.block_at(x, y),
                next_pos,
                self.inner_kernel.size as int,
                self.inner_kernel.max_distance_sqr as int,
                self.outer_kernel.size as int,
                self.outer_kernel.max_distance_sqr as int,
                x,
                y,
            ) by {
                let b1 = m1.block_at(x, y);
            }
        }
        Ok(())
    }
}

/// A usable inner edge length: the current one when it is odd and in
/// range, the fallback otherwise.
pub open spec fn spec_norm_inner_size(s: usize) -> usize {
    if s <= 16383 && s % 2 == 1 {
        s
    } else {
        5
    }
}

/// A usable outer margin: the current one when it is even and in range,
/// the fallback otherwise.
pub open spec fn spec_norm_margin(m: usize) -> usize {
    if m <= MAX_KERNEL_SIZE - 16383 && m % 2 == 0 {
        m
    } else {
        2
    }
}

/// The squared radius a kernel keeps when its radius is not mutated:
/// the current one if the size is unchanged and the radius still valid
/// for it, else the corner bound of the new size.
pub open spec fn spec_kept_radius(new_size: usize, old_size: usize, old_rad: usize) -> usize {
    if new_size == old_size && spec_min_radius_sqr(new_size as int) <= old_rad
        <= spec_max_radius_sqr(new_size as int) {
        old_rad
    } else {
        spec_max_radius_sqr(new_size as int) as usize
    }
}

/// The outcome of one kernel mutation, as a function of the walker, the
/// configuration and the generator state alone: the new inner size and
/// squared radius, the new outer margin and squared radius, and the
/// state after all draws. Mirrors the draw order: size gate, size
/// sample, radius gate, radius draw, margin gate, margin sample, outer
/// radius gate, outer radius draw.
pub open spec fn spec_mutation(w: CuteWalker, c: GenerationConfig, s0: u64) -> (
    usize,
    usize,
    usize,
    usize,
    u64,
) {
    let base = spec_norm_inner_size(w.inner_kernel.size);
    let s1 = spec_next_state(s0);
    let sampled_size = c.inner_size_probs.values.unwrap()@[spec_weighted_index_of(
        c.inner_size_probs.probs@,
        s1,
    )];
    let size = if spec_gate_fires(s0, c.inner_size_mut_prob) && sampled_size % 2 == 1 && 3
        <= sampled_size <= 16383 {
        sampled_size
    } else {
        base
    };
    let s2 = if spec_gate_fires(s0, c.inner_size_mut_prob) {
        spec_next_state(s1)
    } else {
        s1
    };
    let s3 = spec_next_state(s2);
    let radii = spec_unique_radii(size as int);
    let irad = if spec_gate_fires(s2, c.inner_rad_mut_prob) {
        radii[spec_next_state(s3) as int % radii.len() as int]
    } else {
        spec_kept_radius(size, w.inner_kernel.size, w.inner_kernel.max_distance_sqr)
    };
    let s4 = if spec_gate_fires(s2, c.inner_rad_mut_prob) {
        spec_next_state(s3)
    } else {
        s3
    };
    let mbase = spec_norm_margin(w.outer_margin);
    let s5 = spec_next_state(s4);
    let sampled_margin = c.outer_margin_probs.values.unwrap()@[spec_weighted_index_of(
        c.outer_margin_probs.probs@,
        s5,
    )];
    let margin = if spec_gate_fires(s4, c.outer_size_mut_prob) && sampled_margin % 2 == 0
        && sampled_margin <= MAX_KERNEL_SIZE - 16383 {
        sampled_margin
    } else {
        mbase
    };
    let s6 = if spec_gate_fires(s4, c.outer_size_mut_prob) {
        spec_next_state(s5)
    } else {
        s5
    };
    let outer_size = (size + margin) as usize;
    let s7 = spec_next_state(s6);
    let oradii = spec_unique_radii(outer_size as int);
    let orad = if spec_gate_fires(s6, c.outer_rad_mut_prob) {
        oradii[spec_next_state(s7) as int % oradii.len() as int]
    } else {
        spec_kept_radius(outer_size, w.outer_kernel.size, w.outer_kernel.max_distance_sqr)
    };
    let s8 = if spec_gate_fires(s6, c.outer_rad_mut_prob) {
        spec_next_state(s7)
    } else {
        s7
    };
    (size, irad, margin, orad, s8)
}

/// Left end of the platform strip one walker lays at `pos`.
pub open spec fn spec_strip_tl(pos: Position) -> Position {
    Position { x: (pos.x - 1) as usize, y: pos.y }
}

/// Right end of the platform strip one walker lays at `pos`.
pub open spec fn spec_strip_br(pos: Position) -> Position {
    Position { x: (pos.x + 1) as usize, y: pos.y }
}

/// Whether a three-cell platform strip at `pos` stays inside the grid and
/// leaves a row below it for footing.
pub open spec fn spec_strip_fits(pos: Position, width: int, height: int) -> bool {
    1 <= pos.x && pos.x + 1 < width && pos.y + 1 < height
}

/// Whether the three cells directly below the strip are all Hookable, so
/// an early platform has solid footing.
pub open spec fn spec_footing(m: Grid, pos: Position) -> bool {
    &&& m.block_at(pos.x - 1, pos.y + 1) == BlockType::Hookable
    &&& m.block_at(pos.x as int, pos.y + 1) == BlockType::Hookable
    &&& m.block_at(pos.x + 1, pos.y + 1) == BlockType::Hookable
}

impl CuteWalker {
    /// Counts this step towards the next platform and lays one when due:
    /// once the configured maximum spacing is hit the platform is forced;
    /// from the minimum spacing on it is laid early when the cells below
    /// offer solid footing. A platform is a three-cell strip at the
    /// walker's row that only overwrites empty cells; laying one resets
    /// the step counter. The counter saturates at the maximum, so the
    /// bookkeeping never overflows.
    pub fn check_platform(&mut self, map: &mut Grid, min_distance: usize, max_distance: usize)
        requires
            old(self).wf(),
            old(map).wf(),
            old(self).pos.x < old(map).spec_width(),
            old(self).pos.y < old(map).spec_height(),
        ensures
            final(self).wf(),
            final(map).wf(),
            final(map).same_shape(old(map)),
            final(self).pos == old(self).pos,
            final(self).waypoints == old(self).waypoints,
            final(self).goal_index == old(self).goal_index,
            final(self).finished == old(self).finished,
            final(self).inner_kernel == old(self).inner_kernel,
            final(self).outer_kernel == old(self).outer_kernel,
            final(self).outer_margin == old(self).outer_margin,
            spec_platform_placed(*old(self), *old(map), min_distance as int, max_distance as int)
                ==> final(self).steps_since_platform == 0 && forall|x: int, y: int|
                0 <= x < old(map).spec_width() && 0 <= y < old(map).spec_height()
                    ==> #[trigger] final(map).block_at(x, y) == (
                    if spec_in_rect(spec_strip_tl(old(self).pos), spec_strip_br(old(self).pos), x, y)
                        && old(map).block_at(x, y) == BlockType::Empty {
                        BlockType::Platform
                    } else {
                        old(map).block_at(x, y)
                    }),
            !spec_platform_placed(*old(self), *old(map), min_distance as int, max_distance as int)
                ==> final(self).steps_since_platform == spec_next_platform_steps(
                old(self).steps_since_platform as int,
                max_distance as int,
            ) && final(map).same_blocks(old(map)) && final(map).same_chunks(old(map)),
    {
        let steps: usize = if self.steps_since_platform < max_distance {
            self.steps_since_platform + 1
        } else {
            self.steps_since_platform
        };

        let fits = self.pos.x >= 1 && self.pos.x + 1 < map.width() && self.pos.y + 1
            < map.height();
        let mut place = false;
        if fits {
            if steps >= max_distance {
                place = true;
            } else if steps >= min_distance {
                let below_left = map.get_block(self.pos.x - 1, self.pos.y + 1);
                let below_mid = map.get_block(self.pos.x, self.pos.y + 1);
                let below_right = map.get_block(self.pos.x + 1, self.pos.y + 1);
                place = below_left == BlockType::Hookable && below_mid == BlockType::Hookable
                    && below_right == BlockType::Hookable;
            }
        }

        if place {
            let strip_tl = Position::new(self.pos.x - 1, self.pos.y);
            let strip_br = Position::new(self.pos.x + 1, self.pos.y);
            map.set_area(&strip_tl, &strip_br, &BlockType::Platform,
                &crate::block::Overwrite::ReplaceEmptyOnly);
            self.steps_since_platform = 0;
        } else {
            self.steps_since_platform = steps;
        }
    }
}

/// The saturating step count towards the next platform.
pub open spec fn spec_next_platform_steps(steps: int, max_distance: int) -> int {
    if steps < max_distance {
        steps + 1
    } else {
        steps
    }
}

/// Whether this step lays a platform: the strip must fit, and the step
/// count must either hit the forced maximum or reach the minimum with
/// solid footing below.
pub open spec fn spec_platform_placed(
    w: CuteWalker,
    m: Grid,
    min_distance: int,
    max_distance: int,
) -> bool {
    let steps = spec_next_platform_steps(w.steps_since_platform as int, max_distance);
    spec_strip_fits(w.pos, m.spec_width(), m.spec_height()) && (steps >= max_distance || (steps
        >= min_distance && spec_footing(m, w.pos)))
}

/// Two positions one cardinal step apart are at squared distance one.
proof fn lemma_unit_dist(a: Position, b: Position)
    requires
        spec_abs_diff(a.x as int, b.x as int) + spec_abs_diff(a.y as int, b.y as int) == 1,
    ensures
        spec_dist_sqr(a, b) == 1,
{
    let dx = spec_abs_diff(a.x as int, b.x as int);
    let dy = spec_abs_diff(a.y as int, b.y as int);
    assert(dx * dx + dy * dy == 1) by (nonlinear_arith)
        requires
            dx + dy == 1,
            dx >= 0,
            dy >= 0,
    ;
}

} // verus!
