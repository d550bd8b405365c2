use mapgen::random::{Random, RandomDistConfig, Seed, PROB_SCALE};

#[test]
fn same_seed_reproduces_the_sequence() {
    let mut a = Random::new(Seed(12345));
    let mut b = Random::new(Seed(12345));
    for _ in 0..1000 {
        assert_eq!(a.in_range(1000), b.in_range(1000));
    }
}

#[test]
fn different_seeds_diverge() {
    let mut a = Random::new(Seed(1));
    let mut b = Random::new(Seed(2));
    let mut all_equal = true;
    for _ in 0..64 {
        if a.in_range(1 << 30) != b.in_range(1 << 30) {
            all_equal = false;
        }
    }
    assert!(!all_equal);
}

#[test]
fn zero_seed_is_usable() {
    let mut r = Random::new(Seed(0));
    for _ in 0..100 {
        assert!(r.in_range(7) < 7);
    }
}

#[test]
fn in_range_stays_below_bound() {
    let mut r = Random::new(Seed(99));
    for n in 1..50usize {
        for _ in 0..20 {
            assert!(r.in_range(n) < n);
        }
    }
}

#[test]
fn gate_is_monotone_in_probability() {
    let mut never = Random::new(Seed(7));
    let mut always = Random::new(Seed(7));
    for _ in 0..200 {
        assert!(!never.gate(0));
        assert!(always.gate(PROB_SCALE));
    }
}

#[test]
fn weighted_index_picks_only_positive_weights() {
    let mut r = Random::new(Seed(42));
    let weights = vec![0u32, 0, 5, 0];
    for _ in 0..100 {
        assert_eq!(r.weighted_index(&weights), 2);
    }
}

#[test]
fn weighted_index_zero_weights_defaults_to_first() {
    let mut r = Random::new(Seed(42));
    let weights = vec![0u32, 0, 0];
    assert_eq!(r.weighted_index(&weights), 0);
}

fn prob_sum(probs: &[u32]) -> u64 {
    probs.iter().map(|&p| p as u64).sum()
}

#[test]
fn new_dist_config_is_normalized() {
    let cfg: RandomDistConfig<usize> =
        RandomDistConfig::new(Some(vec![3, 5, 7]), vec![1, 1, 2]);
    assert_eq!(prob_sum(&cfg.probs), PROB_SCALE as u64);
    assert_eq!(cfg.values.as_ref().unwrap().len(), cfg.probs.len());
}

#[test]
fn normalize_collapses_all_zero_weights() {
    let mut cfg: RandomDistConfig<usize> =
        RandomDistConfig::new(Some(vec![3, 5]), vec![0, 0]);
    cfg.normalize_probs();
    assert_eq!(prob_sum(&cfg.probs), PROB_SCALE as u64);
    assert_eq!(cfg.probs[0], PROB_SCALE);
}

/// The probabilities sum to one (in scaled integer form) after every
/// structural edit.
#[test]
fn structural_edits_keep_probs_normalized() {
    let mut cfg: RandomDistConfig<usize> =
        RandomDistConfig::new(Some(vec![3, 5, 7]), vec![100, 400, 500]);
    assert_eq!(prob_sum(&cfg.probs), PROB_SCALE as u64);
    cfg.add_entry(9, 250);
    assert_eq!(prob_sum(&cfg.probs), PROB_SCALE as u64);
    assert_eq!(cfg.probs.len(), 4);
    cfg.remove_entry(1);
    assert_eq!(prob_sum(&cfg.probs), PROB_SCALE as u64);
    assert_eq!(cfg.probs.len(), 3);
    assert_eq!(cfg.values.as_ref().unwrap().len(), 3);
}

#[test]
fn sample_value_returns_stored_value() {
    let cfg: RandomDistConfig<usize> =
        RandomDistConfig::new(Some(vec![11, 13, 17]), vec![1, 1, 1]);
    let mut r = Random::new(Seed(5));
    for _ in 0..50 {
        let v = cfg.sample_value(&mut r);
        assert!([11, 13, 17].contains(&v));
    }
}
