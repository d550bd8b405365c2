//! The seeded random source. Every stochastic decision of the generator
//! draws from an explicitly threaded `Random`, never from an ambient
//! generator, so one seed always reproduces one run bit for bit.

use vstd::prelude::*;

verus! {

/// Probabilities are carried as integer weights out of this scale; a
/// normalized set sums to exactly `PROB_SCALE`.
pub const PROB_SCALE: u32 = 1000;

/// A 64-bit seed for one generation session.
#[derive(Clone, Copy, Debug, PartialEq, Eq, Structural)]
pub struct Seed(pub u64);

/// One xorshift step: the whole state transition of the generator.
pub open spec fn spec_next_state(s: u64) -> u64 {
    let a = s ^ (s << 13u64);
    let b = a ^ (a >> 7u64);
    b ^ (b << 17u64)
}

/// Deterministic xorshift generator. The state is never zero, the one
/// fixed point of the transition.
#[derive(Debug)]
pub struct Random {
    state: u64,
}

impl Random {
    /// The generator state is never the all-zero fixed point.
    pub closed spec fn wf(&self) -> bool {
        self.state != 0
    }

    /// Seeds a generator; the zero seed is replaced by a fixed odd
    /// constant so the state never collapses.
    pub fn new(seed: Seed) -> (r: Random)
        ensures
            r.wf(),
    {
        let state = if seed.0 == 0 {
            0x9E37_79B9_7F4A_7C15u64
        } else {
            seed.0
        };
        Random { state }
    }

    /// Advances the state by one xorshift step and returns it.
    fn next_u64(&mut self) -> (r: u64)
        requires
            old(self).wf(),
        ensures
            final(self).wf(),
            r == spec_next_state(old(self).state_view()),
            final(self).state_view() == r,
    {
        let s = self.state;
        let a = s ^ (s << 13u64);
        let b = a ^ (a >> 7u64);
        let c = b ^ (b << 17u64);
        proof {
            lemma_xorshift_nonzero(s);
        }
        self.state = c;
        c
    }

    /// The raw state, visible to specifications only.
    pub closed spec fn state_view(&self) -> u64 {
        self.state
    }

    /// A value below `n`, uniformly-ish drawn. The result and the new
    /// state are functions of the old state alone.
    pub fn in_range(&mut self, n: usize) -> (r: usize)
        requires
            old(self).wf(),
            n >= 1,
        ensures
            final(self).wf(),
            r < n,
            r == spec_next_state(old(self).state_view()) as int % (n as int),
            final(self).state_view() == spec_next_state(old(self).state_view()),
    {
        let draw = self.next_u64();
        (draw % (n as u64)) as usize
    }

    /// A probability gate: true in `prob` of `PROB_SCALE` draws. The
    /// result and the new state are functions of the old state alone.
    pub fn gate(&mut self, prob: u32) -> (r: bool)
        requires
            old(self).wf(),
        ensures
            final(self).wf(),
            r == spec_gate_fires(old(self).state_view(), prob),
            final(self).state_view() == spec_next_state(old(self).state_view()),
    {
        let draw = self.next_u64();
        (draw % (PROB_SCALE as u64)) < (prob as u64)
    }

    /// An index drawn according to `weights`: index `i` is returned with
    /// probability `weights[i]` over the sum. When all weights are zero
    /// the first index is returned without consuming a draw; otherwise
    /// the returned index always carries a positive weight and is a
    /// function of the weights and the old state alone.
    pub fn weighted_index(&mut self, weights: &Vec<u32>) -> (idx: usize)
        requires
            old(self).wf(),
            weights@.len() >= 1,
            weights@.len() <= 0xFFFF,
        ensures
            final(self).wf(),
            idx < weights@.len(),
            spec_weight_prefix(weights@, weights@.len() as int) > 0 ==> weights@[idx as int] > 0,
            idx == spec_weighted_index_of(weights@, old(self).state_view()),
            final(self).state_view() == (if spec_weight_prefix(weights@, weights@.len() as int)
                == 0 {
                old(self).state_view()
            } else {
                spec_next_state(old(self).state_view())
            }),
    {
        let mut total: u64 = 0;
        let mut i: usize = 0;
        while i < weights.len()
            invariant
                i <= weights@.len(),
                weights@.len() <= 0xFFFF,
                total == spec_weight_prefix(weights@, i as int),
                total <= (i as int) * 0xFFFF_FFFF,
            decreases weights@.len() - i,
        {
            proof {
                assert((i as int) * 0xFFFF_FFFF + 0xFFFF_FFFF == ((i + 1) as int) * 0xFFFF_FFFF)
                    by (nonlinear_arith);
                assert(((i + 1) as int) * 0xFFFF_FFFF <= 0x10000 * 0xFFFF_FFFF)
                    by (nonlinear_arith)
                    requires
                        0 <= (i + 1) as int <= 0x10000,
                ;
            }
            total = total + (weights[i] as u64);
            i = i + 1;
        }
        if total == 0 {
            return 0;
        }
        proof {
            assert((weights@.len() as int) * 0xFFFF_FFFF <= 0xFFFF * 0xFFFF_FFFF)
                by (nonlinear_arith)
                requires
                    0 <= weights@.len() as int <= 0xFFFF,
            ;
        }
        let draw = self.next_u64();
        let r = draw % total;
        let ghost pick = spec_weighted_pick(weights@, r as int, 0);
        let mut acc: u64 = 0;
        let mut idx: usize = 0;
        while idx < weights.len()
            invariant
                self.wf(),
                idx <= weights@.len(),
                weights@.len() <= 0xFFFF,
                acc == spec_weight_prefix(weights@, idx as int),
                total == spec_weight_prefix(weights@, weights@.len() as int),
                total <= 0xFFFF * 0xFFFF_FFFF,
                acc <= r < total,
                total > 0,
                self.state_view() == spec_next_state(old(self).state_view()),
                pick == spec_weighted_pick(weights@, r as int, idx as int),
                pick == spec_weighted_index_of(weights@, old(self).state_view()),
            decreases weights@.len() - idx,
        {
            let w = weights[idx] as u64;
            if r < acc + w {
                return idx;
            }
            acc = acc + w;
            idx = idx + 1;
        }
        proof {
            assert(false);
        }
        0
    }
}

/// Sum of the first `n` weights.
pub open spec fn spec_weight_prefix(s: Seq<u32>, n: int) -> int
    decreases n,
{
    if n <= 0 {
        0
    } else {
        spec_weight_prefix(s, n - 1) + s[n - 1]
    }
}

/// The first index at or after `i` whose weight band contains `r`: the
/// least `j` with `r` below the sum of the first `j + 1` weights.
pub open spec fn spec_weighted_pick(s: Seq<u32>, r: int, i: int) -> int
    decreases s.len() - i,
{
    if i >= s.len() {
        i
    } else if r < spec_weight_prefix(s, i + 1) {
        i
    } else {
        spec_weighted_pick(s, r, i + 1)
    }
}

/// Whether a probability gate drawn from `state` fires for `prob` out of
/// `PROB_SCALE`.
pub open spec fn spec_gate_fires(state: u64, prob: u32) -> bool {
    spec_next_state(state) as int % (PROB_SCALE as int) < prob
}

/// The index a weighted draw from state `state` selects: the band of the
/// advanced state reduced modulo the weight total, or the first index
/// when every weight is zero.
pub open spec fn spec_weighted_index_of(s: Seq<u32>, state: u64) -> int {
    let total = spec_weight_prefix(s, s.len() as int);
    if total == 0 {
        0
    } else {
        spec_weighted_pick(s, spec_next_state(state) as int % total, 0)
    }
}

/// A weighted distribution: one probability weight per entry, with an
/// optional list of associated values of the same length. After every
/// structural edit the weights are re-normalized so that they sum to
/// exactly `PROB_SCALE`.
#[derive(Debug)]
pub struct RandomDistConfig<T> {
    pub values: Option<Vec<T>>,
    pub probs: Vec<u32>,
}

impl<T> RandomDistConfig<T> {
    /// Well-formedness: at least one entry, values (when present) aligned
    /// with the weights, and the weights normalized to `PROB_SCALE`.
    pub open spec fn wf(&self) -> bool {
        &&& 1 <= self.probs@.len() <= 0xFFFF
        &&& self.values is Some ==> self.values.unwrap()@.len() == self.probs@.len()
        &&& spec_weight_prefix(self.probs@, self.probs@.len() as int) == PROB_SCALE
    }

    /// Builds a distribution and normalizes its weights.
    pub fn new(values: Option<Vec<T>>, probs: Vec<u32>) -> (r: RandomDistConfig<T>)
        requires
            1 <= probs@.len() <= 0xFFFF,
            values is Some ==> values.unwrap()@.len() == probs@.len(),
        ensures
            r.wf(),
            r.probs@.len() == probs@.len(),
            r.values is Some <==> values is Some,
            r.values is Some ==> r.values.unwrap()@ == values.unwrap()@,
            spec_weight_prefix(probs@, probs@.len() as int) == PROB_SCALE ==> r.probs@ == probs@,
    {
        let mut r = RandomDistConfig { values, probs };
        r.normalize_probs();
        r
    }

    /// Rescales the weights so they sum to exactly `PROB_SCALE`; an
    /// all-zero set collapses to the first entry taking everything.
    pub fn normalize_probs(&mut self)
        requires
            1 <= old(self).probs@.len() <= 0xFFFF,
        ensures
            final(self).probs@.len() == old(self).probs@.len(),
            final(self).values == old(self).values,
            spec_weight_prefix(final(self).probs@, final(self).probs@.len() as int) == PROB_SCALE,
            spec_weight_prefix(old(self).probs@, old(self).probs@.len() as int) == PROB_SCALE
                ==> final(self).probs@ == old(self).probs@,
    {
        let ghost p0 = self.probs@;
        let len = self.probs.len();
        let total = sum_weights(&self.probs);
        if total == 0 {
            self.probs.set(0, PROB_SCALE);
            proof {
                assert(spec_weight_prefix(self.probs@, 0) == 0);
            }
            let mut i: usize = 1;
            while i < len
                invariant
                    1 <= i <= len,
                    len == self.probs@.len(),
                    self.values == old(self).values,
                    spec_weight_prefix(self.probs@, i as int) == PROB_SCALE,
                decreases len - i,
            {
                let ghost before = self.probs@;
                self.probs.set(i, 0);
                proof {
                    lemma_prefix_update_beyond(before, i as int, 0, i as int);
                }
                i = i + 1;
            }
            return ;
        }
        let mut assigned: u32 = 0;
        let mut i: usize = 0;
        while i < len - 1
            invariant
                i <= len - 1,
                1 <= len <= 0xFFFF,
                len == self.probs@.len(),
                len == p0.len(),
                self.values == old(self).values,
                assigned <= PROB_SCALE,
                assigned == spec_weight_prefix(self.probs@, i as int),
                total == spec_weight_prefix(p0, len as int),
                total >= 1,
                spec_weight_prefix(p0, len as int) == PROB_SCALE ==> self.probs@ == p0,
            decreases len - i,
        {
            proof {
                if spec_weight_prefix(p0, len as int) == PROB_SCALE {
                    // Already-normalized weights divide through unchanged.
                    lemma_prefix_mono(p0, i + 1, len as int);
                }
            }
            let q64 = (self.probs[i] as u64) * (PROB_SCALE as u64) / total;
            proof {
                if spec_weight_prefix(p0, len as int) == PROB_SCALE {
                    assert(q64 == p0[i as int]) by (nonlinear_arith)
                        requires
                            q64 == (p0[i as int] * PROB_SCALE) as u64 / (PROB_SCALE as u64),
                            p0[i as int] * PROB_SCALE <= 0xFFFF_FFFFu64 * 1000,
                    ;
                }
            }
            let room = PROB_SCALE - assigned;
            let q: u32 = if q64 > (room as u64) {
                room
            } else {
                q64 as u32
            };
            let ghost before = self.probs@;
            self.probs.set(i, q);
            proof {
                lemma_prefix_update_beyond(before, i as int, q, i as int);
                if spec_weight_prefix(p0, len as int) == PROB_SCALE {
                    assert(q == p0[i as int]);
                    assert(self.probs@ =~= p0);
                }
            }
            assigned = assigned + q;
            i = i + 1;
        }
        let ghost before = self.probs@;
        self.probs.set(len - 1, PROB_SCALE - assigned);
        proof {
            lemma_prefix_update_beyond(before, len - 1, (PROB_SCALE - assigned) as u32, len - 1);
            if spec_weight_prefix(p0, len as int) == PROB_SCALE {
                assert(PROB_SCALE - assigned == p0[len - 1]);
                assert(self.probs@ =~= p0);
            }
        }
    }

    /// Checks well-formedness at run time: entry counts in range, values
    /// aligned, weights normalized.
    pub fn check_wf(&self) -> (r: bool)
        ensures
            r == self.wf(),
    {
        if self.probs.len() < 1 || self.probs.len() > 0xFFFF {
            return false;
        }
        let values_ok = match &self.values {
            Some(v) => v.len() == self.probs.len(),
            None => true,
        };
        if !values_ok {
            return false;
        }
        sum_weights(&self.probs) == (PROB_SCALE as u64)
    }

    /// An entry index drawn according to the weights; a function of the
    /// weights and the generator state alone.
    pub fn sample_index(&self, rnd: &mut Random) -> (idx: usize)
        requires
            old(rnd).wf(),
            self.wf(),
        ensures
            final(rnd).wf(),
            idx < self.probs@.len(),
            idx == spec_weighted_index_of(self.probs@, old(rnd).state_view()),
            final(rnd).state_view() == spec_next_state(old(rnd).state_view()),
    {
        rnd.weighted_index(&self.probs)
    }

    /// Appends an entry and re-normalizes the weights.
    pub fn add_entry(&mut self, value: T, prob: u32)
        requires
            old(self).wf(),
            old(self).values is Some,
            old(self).probs@.len() < 0xFFFF,
        ensures
            final(self).wf(),
            final(self).probs@.len() == old(self).probs@.len() + 1,
    {
        match &mut self.values {
            Some(v) => {
                v.push(value);
            },
            None => {},
        }
        self.probs.push(prob);
        self.normalize_probs();
    }

    /// Removes the entry at `index` and re-normalizes the weights.
    pub fn remove_entry(&mut self, index: usize)
        requires
            old(self).wf(),
            2 <= old(self).probs@.len(),
            index < old(self).probs@.len(),
        ensures
            final(self).wf(),
            final(self).probs@.len() == old(self).probs@.len() - 1,
    {
        match &mut self.values {
            Some(v) => {
                v.remove(index);
            },
            None => {},
        }
        self.probs.remove(index);
        self.normalize_probs();
    }
}

impl<T: Copy> RandomDistConfig<T> {
    /// A value drawn according to the weights; always one of the stored
    /// values, and a function of the distribution and the generator
    /// state alone.
    pub fn sample_value(&self, rnd: &mut Random) -> (r: T)
        requires
            old(rnd).wf(),
            self.wf(),
            self.values is Some,
        ensures
            final(rnd).wf(),
            exists|i: int|
                0 <= i < self.values.unwrap()@.len() && r == self.values.unwrap()@[i],
            r == self.values.unwrap()@[spec_weighted_index_of(
                self.probs@,
                old(rnd).state_view(),
            )],
            final(rnd).state_view() == spec_next_state(old(rnd).state_view()),
    {
        let idx = self.sample_index(rnd);
        match &self.values {
            Some(v) => v[idx],
            None => unreached(),
        }
    }
}

/// Sum of a weight vector, as one 64-bit value.
pub(crate) fn sum_weights(weights: &Vec<u32>) -> (total: u64)
    requires
        weights@.len() <= 0xFFFF,
    ensures
        total == spec_weight_prefix(weights@, weights@.len() as int),
{
    let mut total: u64 = 0;
    let mut i: usize = 0;
    while i < weights.len()
        invariant
            i <= weights@.len(),
            weights@.len() <= 0xFFFF,
            total == spec_weight_prefix(weights@, i as int),
            total <= (i as int) * 0xFFFF_FFFF,
        decreases weights@.len() - i,
    {
        proof {
            assert((i as int) * 0xFFFF_FFFF + 0xFFFF_FFFF == ((i + 1) as int) * 0xFFFF_FFFF)
                by (nonlinear_arith);
            assert(((i + 1) as int) * 0xFFFF_FFFF <= 0x10000 * 0xFFFF_FFFF) by (nonlinear_arith)
                requires
                    0 <= (i + 1) as int <= 0x10000,
            ;
        }
        total = total + (weights[i] as u64);
        i = i + 1;
    }
    total
}

/// Weight prefixes grow with their length.
proof fn lemma_prefix_mono(s: Seq<u32>, i: int, j: int)
    requires
        0 <= i <= j,
    ensures
        spec_weight_prefix(s, i) <= spec_weight_prefix(s, j),
    decreases j - i,
{
    if i < j {
        lemma_prefix_mono(s, i, j - 1);
    }
}

/// The sum of the first `n` weights ignores updates at or beyond `n`.
proof fn lemma_prefix_update_beyond(s: Seq<u32>, j: int, v: u32, n: int)
    requires
        0 <= j < s.len(),
        n <= j,
    ensures
        spec_weight_prefix(s.update(j, v), n) == spec_weight_prefix(s, n),
    decreases n,
{
    if n > 0 {
        lemma_prefix_update_beyond(s, j, v, n - 1);
    }
}

/// The xorshift transition never maps a nonzero state to zero: it is a
/// bijection on 64-bit words whose only fixed point is zero.
proof fn lemma_xorshift_nonzero(s: u64)
    ensures
        s != 0 ==> spec_next_state(s) != 0,
{
    assert(s != 0 ==> ((s ^ (s << 13u64)) ^ ((s ^ (s << 13u64)) >> 7u64)) ^ (((s ^ (s
        << 13u64)) ^ ((s ^ (s << 13u64)) >> 7u64)) << 17u64) != 0) by (bit_vector);
}

} // verus!
