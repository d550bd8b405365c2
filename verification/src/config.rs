//! The generation configuration: kernel mutation probabilities, walker
//! step weights, platform spacing, open-area and skip parameters, and the
//! ordered waypoint list. The core validates a configuration before each
//! step and aborts the step with an error instead of proceeding with
//! defaults.

use vstd::prelude::*;

use crate::error::GenError;
use crate::kernel::MAX_KERNEL_SIZE;
use crate::position::{Position, MAX_DIM};
use crate::random::{spec_weight_prefix, sum_weights, RandomDistConfig, PROB_SCALE};

verus! {

/// Number of ranked directions a step weight applies to.
pub const STEP_WEIGHT_COUNT: usize = 4;

/// Everything one generation session is parameterized by.
#[derive(Debug)]
pub struct GenerationConfig {
    /// Name of the preset.
    pub name: String,
    /// Free-form description of the preset.
    pub description: Option<String>,
    /// Distribution of candidate inner-kernel sizes (odd values).
    pub inner_size_probs: RandomDistConfig<usize>,
    /// Distribution of margins the outer kernel adds to the inner size
    /// (even values, so the outer size stays odd).
    pub outer_margin_probs: RandomDistConfig<usize>,
    /// Probability, out of `PROB_SCALE`, of mutating the inner radius.
    pub inner_rad_mut_prob: u32,
    /// Probability, out of `PROB_SCALE`, of mutating the inner size.
    pub inner_size_mut_prob: u32,
    /// Probability, out of `PROB_SCALE`, of mutating the outer radius.
    pub outer_rad_mut_prob: u32,
    /// Probability, out of `PROB_SCALE`, of mutating the outer size.
    pub outer_size_mut_prob: u32,
    /// Weight of each greedy rank when the walker picks a direction,
    /// best first.
    pub step_weights: Vec<u32>,
    /// Ordered goal positions the walker seeks in sequence.
    pub waypoints: Vec<Position>,
    /// Squared distance at which a waypoint counts as reached.
    pub waypoint_reached_dist: usize,
    /// Walker steps after which a platform may, then must, be attempted.
    pub platform_distance_bounds: (usize, usize),
    /// Largest distance an empty cell may keep to the nearest non-empty
    /// cell, in cells.
    pub max_distance: usize,
    /// Smallest and largest accepted skip length, both inclusive.
    pub skip_length_bounds: (usize, usize),
    /// Smallest allowed squared distance between endpoints of two skips.
    pub skip_min_spacing_sqr: usize,
}

impl GenerationConfig {
    /// All constraints a configuration must meet before it may drive a
    /// step: a goal to walk to, four positive step weights, probabilities
    /// within scale, and normalized size and margin distributions whose
    /// values keep every kernel odd and within the stencil limit (so that
    /// inner size plus margin never exceeds `MAX_KERNEL_SIZE`). The open-
    /// area distance is capped so that the integer threshold `8 *
    /// max_distance^2` fits the narrowest `usize`.
    pub open spec fn spec_valid(&self) -> bool {
        &&& self.waypoints@.len() >= 1
        &&& forall|i: int|
            0 <= i < self.waypoints@.len() ==> (#[trigger] self.waypoints@[i]).x <= MAX_DIM
                && self.waypoints@[i].y <= MAX_DIM
        &&& self.step_weights@.len() == STEP_WEIGHT_COUNT
        &&& spec_weight_prefix(self.step_weights@, STEP_WEIGHT_COUNT as int) > 0
        &&& self.inner_rad_mut_prob <= PROB_SCALE
        &&& self.inner_size_mut_prob <= PROB_SCALE
        &&& self.outer_rad_mut_prob <= PROB_SCALE
        &&& self.outer_size_mut_prob <= PROB_SCALE
        &&& self.inner_size_probs.wf()
        &&& self.inner_size_probs.values is Some
        &&& forall|i: int|
            0 <= i < self.inner_size_probs.values.unwrap()@.len()
                ==> (#[trigger] self.inner_size_probs.values.unwrap()@[i]) % 2 == 1
                    && 3 <= self.inner_size_probs.values.unwrap()@[i] <= 16383
        &&& self.outer_margin_probs.wf()
        &&& self.outer_margin_probs.values is Some
        &&& forall|i: int|
            0 <= i < self.outer_margin_probs.values.unwrap()@.len()
                ==> (#[trigger] self.outer_margin_probs.values.unwrap()@[i]) % 2 == 0
                    && self.outer_margin_probs.values.unwrap()@[i] <= MAX_KERNEL_SIZE - 16383
        &&& self.max_distance <= 8192
        &&& self.platform_distance_bounds.0 <= self.platform_distance_bounds.1
        &&& 1 <= self.platform_distance_bounds.1
        &&& self.skip_length_bounds.0 <= self.skip_length_bounds.1
    }

    /// Checks the configuration; rejects anything `spec_valid` refuses.
    pub fn validate(&self) -> (r: Result<(), GenError>)
        ensures
            r is Ok <==> self.spec_valid(),
            r is Err ==> r->Err_0 == GenError::InvalidConfig,
    {
        if self.waypoints.len() < 1 {
            return Err(GenError::InvalidConfig);
        }
        let mut wi: usize = 0;
        while wi < self.waypoints.len()
            invariant
                wi <= self.waypoints@.len(),
                forall|j: int|
                    0 <= j < wi ==> (#[trigger] self.waypoints@[j]).x <= MAX_DIM
                        && self.waypoints@[j].y <= MAX_DIM,
            decreases self.waypoints@.len() - wi,
        {
            let wp = self.waypoints[wi];
            if wp.x > MAX_DIM || wp.y > MAX_DIM {
                return Err(GenError::InvalidConfig);
            }
            wi = wi + 1;
        }
        if self.step_weights.len() != STEP_WEIGHT_COUNT {
            return Err(GenError::InvalidConfig);
        }
        let weight_sum = sum_weights(&self.step_weights);
        if weight_sum == 0 {
            return Err(GenError::InvalidConfig);
        }
        if self.inner_rad_mut_prob > PROB_SCALE || self.inner_size_mut_prob > PROB_SCALE
            || self.outer_rad_mut_prob > PROB_SCALE || self.outer_size_mut_prob > PROB_SCALE {
            return Err(GenError::InvalidConfig);
        }
        if !self.inner_size_probs.check_wf() {
            return Err(GenError::InvalidConfig);
        }
        match &self.inner_size_probs.values {
            Some(sizes) => {
                let mut i: usize = 0;
                while i < sizes.len()
                    invariant
                        i <= sizes@.len(),
                        self.inner_size_probs.values is Some,
                        sizes@ == self.inner_size_probs.values.unwrap()@,
                        forall|j: int|
                            0 <= j < i ==> (#[trigger] sizes@[j]) % 2 == 1 && 3 <= sizes@[j]
                                <= 16383,
                    decreases sizes@.len() - i,
                {
                    let v = sizes[i];
                    if v % 2 != 1 || v < 3 || v > 16383 {
                        proof {
                            assert(self.inner_size_probs.values.unwrap()@[i as int] == v);
                        }
                        return Err(GenError::InvalidConfig);
                    }
                    i = i + 1;
                }
            },
            None => {
                return Err(GenError::InvalidConfig);
            },
        }
        if !self.outer_margin_probs.check_wf() {
            return Err(GenError::InvalidConfig);
        }
        match &self.outer_margin_probs.values {
            Some(margins) => {
                let mut i: usize = 0;
                while i < margins.len()
                    invariant
                        i <= margins@.len(),
                        self.outer_margin_probs.values is Some,
                        margins@ == self.outer_margin_probs.values.unwrap()@,
                        forall|j: int|
                            0 <= j < i ==> (#[trigger] margins@[j]) % 2 == 0 && margins@[j]
                                <= MAX_KERNEL_SIZE - 16383,
                    decreases margins@.len() - i,
                {
                    let v = margins[i];
                    if v % 2 != 0 || v > MAX_KERNEL_SIZE - 16383 {
                        proof {
                            assert(self.outer_margin_probs.values.unwrap()@[i as int] == v);
                        }
                        return Err(GenError::InvalidConfig);
                    }
                    i = i + 1;
                }
            },
            None => {
                return Err(GenError::InvalidConfig);
            },
        }
        if self.max_distance > 8192 {
            return Err(GenError::InvalidConfig);
        }
        if self.platform_distance_bounds.0 > self.platform_distance_bounds.1
            || self.platform_distance_bounds.1 < 1 {
            return Err(GenError::InvalidConfig);
        }
        if self.skip_length_bounds.0 > self.skip_length_bounds.1 {
            return Err(GenError::InvalidConfig);
        }
        Ok(())
    }
}

impl Default for GenerationConfig {
    /// The default preset: the walker starts bottom-left and zig-zags
    /// over five waypoints; kernels mutate between sizes 5 and 7 with a
    /// fixed outer margin of 2. Every field is pinned, so properties of
    /// "the default configuration" have a definite meaning.
    fn default() -> (c: GenerationConfig)
        ensures
            c.spec_valid(),
            c.name@ == "default"@,
            c.description is None,
            c.inner_size_probs.values is Some,
            c.inner_size_probs.values.unwrap()@ == seq![5usize, 7usize],
            c.inner_size_probs.probs@ == seq![700u32, 300u32],
            c.outer_margin_probs.values is Some,
            c.outer_margin_probs.values.unwrap()@ == seq![2usize],
            c.outer_margin_probs.probs@ == seq![1000u32],
            c.inner_rad_mut_prob == 250,
            c.inner_size_mut_prob == 500,
            c.outer_rad_mut_prob == 250,
            c.outer_size_mut_prob == 500,
            c.step_weights@ == seq![20u32, 11u32, 10u32, 9u32],
            c.waypoints@ == seq![
                Position { x: 250, y: 250 },
                Position { x: 250, y: 150 },
                Position { x: 50, y: 150 },
                Position { x: 50, y: 50 },
                Position { x: 250, y: 50 },
            ],
            c.waypoint_reached_dist == 100,
            c.platform_distance_bounds == (200usize, 500usize),
            c.max_distance == 3,
            c.skip_length_bounds == (4usize, 15usize),
            c.skip_min_spacing_sqr == 100,
    {
        let mut step_weights: Vec<u32> = Vec::new();
        step_weights.push(20);
        step_weights.push(11);
        step_weights.push(10);
        step_weights.push(9);

        let mut waypoints: Vec<Position> = Vec::new();
        waypoints.push(Position::new(250, 250));
        waypoints.push(Position::new(250, 150));
        waypoints.push(Position::new(50, 150));
        waypoints.push(Position::new(50, 50));
        waypoints.push(Position::new(250, 50));

        let mut inner_sizes: Vec<usize> = Vec::new();
        inner_sizes.push(5);
        inner_sizes.push(7);
        let mut inner_size_weights: Vec<u32> = Vec::new();
        inner_size_weights.push(700);
        inner_size_weights.push(300);
        let inner_size_probs = RandomDistConfig::new(Some(inner_sizes), inner_size_weights);

        let mut outer_margins: Vec<usize> = Vec::new();
        outer_margins.push(2);
        let mut outer_margin_weights: Vec<u32> = Vec::new();
        outer_margin_weights.push(1000);
        let outer_margin_probs = RandomDistConfig::new(Some(outer_margins), outer_margin_weights);

        proof {
            assert(spec_weight_prefix(step_weights@, 0) == 0);
            assert(spec_weight_prefix(step_weights@, 1) == 20);
            assert(spec_weight_prefix(step_weights@, 2) == 31);
            assert(spec_weight_prefix(step_weights@, 3) == 41);
            assert(spec_weight_prefix(step_weights@, 4) == 50);
            // The two weight vectors are already normalized, so building
            // the distributions keeps them verbatim.
            assert(spec_weight_prefix(inner_size_weights@, 0) == 0);
            assert(spec_weight_prefix(inner_size_weights@, 1) == 700);
            assert(spec_weight_prefix(inner_size_weights@, 2) == 1000);
            assert(spec_weight_prefix(outer_margin_weights@, 0) == 0);
            assert(spec_weight_prefix(outer_margin_weights@, 1) == 1000);
            assert(step_weights@ =~= seq![20u32, 11u32, 10u32, 9u32]);
            assert(waypoints@ =~= seq![
                Position { x: 250, y: 250 },
                Position { x: 250, y: 150 },
                Position { x: 50, y: 150 },
                Position { x: 50, y: 50 },
                Position { x: 250, y: 50 },
            ]);
            assert(inner_sizes@ =~= seq![5usize, 7usize]);
            assert(inner_size_weights@ =~= seq![700u32, 300u32]);
            assert(outer_margins@ =~= seq![2usize]);
            assert(outer_margin_weights@ =~= seq![1000u32]);
        }

        GenerationConfig {
            name: "default".to_owned(),
            description: None,
            inner_size_probs,
            outer_margin_probs,
            inner_rad_mut_prob: 250,
            inner_size_mut_prob: 500,
            outer_rad_mut_prob: 250,
            outer_size_mut_prob: 500,
            step_weights,
            waypoints,
            waypoint_reached_dist: 100,
            platform_distance_bounds: (200, 500),
            max_distance: 3,
            skip_length_bounds: (4, 15),
            skip_min_spacing_sqr: 100,
        }
    }
}

} // verus!
