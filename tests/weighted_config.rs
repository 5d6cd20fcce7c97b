use rand::rngs::StdRng;
use rand::SeedableRng;
use weighted_config::player::Player;
use weighted_config::threshold_config::{ThresholdConfig, ThresholdConfigError};
use weighted_config::traits::SecretSharingConfig;
use weighted_config::weighted_config::{WeightedConfig, WeightedConfigError};

fn ids(players: &[Player]) -> Vec<usize> {
    players.iter().map(|p| p.id).collect()
}

fn weight_of(wc: &WeightedConfig, players: &[Player]) -> usize {
    players.iter().map(|p| wc.get_player_weight(p)).sum()
}

#[test]
fn bvt() {
    // 1-out-of-1 weighted
    let wc = WeightedConfig::new(1, vec![1]).unwrap();
    assert_eq!(wc.get_total_num_players(), 1);
    assert_eq!(wc.get_player_starting_index(&wc.get_player(0)), 0);
    assert_eq!(wc.get_virtual_player(&wc.get_player(0), 0).id, 0);

    // 1-out-of-2, weights 2
    let wc = WeightedConfig::new(1, vec![2]).unwrap();
    assert_eq!(wc.get_total_num_players(), 1);
    assert_eq!(wc.get_player_starting_index(&wc.get_player(0)), 0);
    assert_eq!(wc.get_virtual_player(&wc.get_player(0), 0).id, 0);
    assert_eq!(wc.get_virtual_player(&wc.get_player(0), 1).id, 1);

    // 1-out-of-2, weights 1, 1
    let wc = WeightedConfig::new(1, vec![1, 1]).unwrap();
    assert_eq!(wc.get_total_num_players(), 2);
    assert_eq!(wc.get_player_starting_index(&wc.get_player(0)), 0);
    assert_eq!(wc.get_player_starting_index(&wc.get_player(1)), 1);
    assert_eq!(wc.get_virtual_player(&wc.get_player(0), 0).id, 0);
    assert_eq!(wc.get_virtual_player(&wc.get_player(1), 0).id, 1);

    // 2-out-of-2, weights 1, 1
    let _wc = WeightedConfig::new(1, vec![1, 1]).unwrap();
    assert_eq!(wc.get_total_num_players(), 2);
    assert_eq!(wc.get_player_starting_index(&wc.get_player(0)), 0);
    assert_eq!(wc.get_player_starting_index(&wc.get_player(1)), 1);
    assert_eq!(wc.get_virtual_player(&wc.get_player(0), 0).id, 0);
    assert_eq!(wc.get_virtual_player(&wc.get_player(1), 0).id, 1);
}

#[test]
fn starting_indices_are_exclusive_prefix_sums() {
    let weights = vec![5, 1, 7, 2, 2];
    let wc = WeightedConfig::new(3, weights.clone()).unwrap();
    let mut expected = 0;
    for (i, w) in weights.iter().enumerate() {
        assert_eq!(wc.get_player_starting_index(&wc.get_player(i)), expected);
        assert_eq!(wc.get_player_weight(&wc.get_player(i)), *w);
        expected += w;
    }
    assert_eq!(wc.get_total_weight(), 17);
    assert_eq!(wc.get_total_num_shares(), 17);
    assert_eq!(wc.get_threshold_weight(), 3);
    assert_eq!(wc.get_max_player_weight(), 7);
    assert_eq!(wc.get_total_num_players(), 5);
}

#[test]
fn all_virtual_players_form_the_player_block() {
    let wc = WeightedConfig::new(5, vec![2, 4, 3]).unwrap();
    let p1 = wc.get_player(1);
    assert_eq!(ids(&wc.get_all_virtual_players(&p1)), vec![2, 3, 4, 5]);
    assert_eq!(ids(&wc.get_all_virtual_players(&wc.get_player(0))), vec![0, 1]);
    assert_eq!(ids(&wc.get_all_virtual_players(&wc.get_player(2))), vec![6, 7, 8]);
}

#[test]
fn virtual_players_partition_all_shares() {
    let wc = WeightedConfig::new(4, vec![3, 1, 2, 5]).unwrap();
    let mut all = vec![];
    for i in 0..wc.get_total_num_players() {
        all.extend(ids(&wc.get_all_virtual_players(&wc.get_player(i))));
    }
    let expected: Vec<usize> = (0..wc.get_total_weight()).collect();
    assert_eq!(all, expected);
}

#[test]
fn two_virtual_players_of_one_player() {
    let wc = WeightedConfig::new(1, vec![2]).unwrap();
    let p0 = wc.get_player(0);
    assert_eq!(ids(&wc.get_all_virtual_players(&p0)), vec![0, 1]);
}

#[test]
fn share_index_inside_and_past_the_block() {
    let wc = WeightedConfig::new(5, vec![2, 4, 3]).unwrap();
    assert_eq!(wc.get_share_index(1, 0), Some(2));
    assert_eq!(wc.get_share_index(1, 3), Some(5));
    assert_eq!(wc.get_share_index(1, 4), None);
    assert_eq!(wc.get_share_index(2, 2), Some(8));
    assert_eq!(wc.get_share_index(2, 3), None);
}

#[test]
fn empty_weights_are_rejected() {
    assert_eq!(
        WeightedConfig::new(1, vec![]),
        Err(WeightedConfigError::EmptyWeightVector)
    );
}

#[test]
fn zero_weight_is_rejected_with_its_index() {
    assert_eq!(
        WeightedConfig::new(1, vec![2, 0, 3]),
        Err(WeightedConfigError::ZeroPlayerWeight(1))
    );
    assert_eq!(
        WeightedConfig::new(1, vec![0, 0]),
        Err(WeightedConfigError::ZeroPlayerWeight(0))
    );
}

#[test]
fn zero_threshold_is_rejected() {
    assert_eq!(
        WeightedConfig::new(0, vec![2, 0, 3]),
        Err(WeightedConfigError::InvalidThreshold)
    );
    assert_eq!(
        WeightedConfig::new(0, vec![]),
        Err(WeightedConfigError::InvalidThreshold)
    );
}

#[test]
fn threshold_above_total_weight_is_rejected() {
    assert_eq!(
        WeightedConfig::new(10, vec![2, 4, 3]),
        Err(WeightedConfigError::ThresholdConfig(
            ThresholdConfigError::ThresholdExceedsShares
        ))
    );
    assert!(WeightedConfig::new(9, vec![2, 4, 3]).is_ok());
}

#[test]
fn threshold_config_validation() {
    assert_eq!(ThresholdConfig::new(0, 3), Err(ThresholdConfigError::ZeroThreshold));
    assert_eq!(
        ThresholdConfig::new(4, 3),
        Err(ThresholdConfigError::ThresholdExceedsShares)
    );
    let tc = ThresholdConfig::new(2, 3).unwrap();
    assert_eq!(tc.get_threshold(), 2);
    assert_eq!(tc.get_total_num_shares(), 3);
    assert_eq!(tc.get_evaluation_domain().get_size(), 3);
    assert_eq!(tc.get_batch_evaluation_domain().get_size(), 3);
}

#[test]
fn weighted_config_domains_cover_all_shares() {
    let wc = WeightedConfig::new(5, vec![2, 4, 3]).unwrap();
    assert_eq!(wc.get_evaluation_domain().get_size(), 9);
    assert_eq!(wc.get_batch_evaluation_domain().get_size(), 9);
    assert_eq!(wc.get_threshold_config().get_threshold(), 5);
    assert_eq!(wc.get_threshold_config().get_total_num_shares(), 9);
}

#[test]
fn best_and_worst_case_subsets() {
    let wc = WeightedConfig::new(5, vec![2, 4, 3]).unwrap();
    let mut rng = StdRng::seed_from_u64(7);
    let best = wc.get_best_case_eligible_subset_of_players(&mut rng);
    assert_eq!(ids(&best), vec![1, 2]);
    let worst = wc.get_worst_case_eligible_subset_of_players(&mut rng);
    assert_eq!(ids(&worst), vec![0, 2]);
    assert!(best.len() <= worst.len());
}

#[test]
fn worst_case_needs_more_players() {
    let wc = WeightedConfig::new(6, vec![1, 5, 1, 1, 2]).unwrap();
    let mut rng = StdRng::seed_from_u64(1);
    let best = wc.get_best_case_eligible_subset_of_players(&mut rng);
    let worst = wc.get_worst_case_eligible_subset_of_players(&mut rng);
    // heaviest first: 5, then 2
    assert_eq!(ids(&best), vec![1, 4]);
    // lightest first, ties by index: 1, 1, 1, then 2, then 5
    assert_eq!(ids(&worst), vec![0, 2, 3, 4, 1]);
    assert!(best.len() < worst.len());
}

#[test]
fn equal_weights_ties_broken_by_index() {
    let wc = WeightedConfig::new(2, vec![3, 3, 3]).unwrap();
    let mut rng = StdRng::seed_from_u64(3);
    assert_eq!(ids(&wc.get_best_case_eligible_subset_of_players(&mut rng)), vec![2]);
    assert_eq!(ids(&wc.get_worst_case_eligible_subset_of_players(&mut rng)), vec![0]);
}

#[test]
fn full_threshold_takes_every_player() {
    let wc = WeightedConfig::new(9, vec![2, 4, 3]).unwrap();
    let mut rng = StdRng::seed_from_u64(11);
    assert_eq!(ids(&wc.get_best_case_eligible_subset_of_players(&mut rng)), vec![1, 2, 0]);
    assert_eq!(ids(&wc.get_worst_case_eligible_subset_of_players(&mut rng)), vec![0, 2, 1]);
    let random = wc.get_random_eligible_subset_of_players(&mut rng);
    let mut sorted = ids(&random);
    sorted.sort();
    assert_eq!(sorted, vec![0, 1, 2]);
}

#[test]
fn random_subset_is_minimal_in_pick_order() {
    let weights = vec![4, 1, 7, 2, 2, 9, 1, 3];
    let wc = WeightedConfig::new(12, weights).unwrap();
    for seed in 0..50u64 {
        let mut rng = StdRng::seed_from_u64(seed);
        let subset = wc.get_random_eligible_subset_of_players(&mut rng);
        assert!(!subset.is_empty());
        assert!(weight_of(&wc, &subset) >= 12);
        assert!(weight_of(&wc, &subset[..subset.len() - 1]) < 12);
        let mut seen = ids(&subset);
        seen.sort();
        seen.dedup();
        assert_eq!(seen.len(), subset.len());
        assert!(subset.iter().all(|p| p.id < 8));
    }
}

#[test]
fn random_player_is_in_range() {
    let wc = WeightedConfig::new(2, vec![1, 2, 3]).unwrap();
    let mut rng = StdRng::seed_from_u64(5);
    for _ in 0..100 {
        assert!(wc.get_random_player(&mut rng).id < 3);
    }
}

#[test]
fn player_id_getter() {
    let p = Player { id: 4 };
    assert_eq!(p.get_id(), 4);
}

#[test]
fn threshold_config_random_subset_has_t_distinct_players() {
    let tc = ThresholdConfig::new(3, 7).unwrap();
    assert_eq!(tc.get_total_num_players(), 7);
    for seed in 0..20u64 {
        let mut rng = StdRng::seed_from_u64(seed);
        let subset = tc.get_random_eligible_subset_of_players(&mut rng);
        let mut seen = ids(&subset);
        seen.sort();
        seen.dedup();
        assert_eq!(seen.len(), 3);
        assert!(subset.iter().all(|p| p.id < 7));
        assert!(tc.get_random_player(&mut rng).id < 7);
    }
}

#[test]
fn threshold_config_full_subset() {
    let tc = ThresholdConfig::new(4, 4).unwrap();
    let mut rng = StdRng::seed_from_u64(9);
    let mut picked = ids(&tc.get_random_eligible_subset_of_players(&mut rng));
    picked.sort();
    assert_eq!(picked, vec![0, 1, 2, 3]);
    assert_eq!(tc.get_player(2).id, 2);
}
