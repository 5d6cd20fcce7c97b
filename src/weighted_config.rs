//! The weighted threshold configuration: players, their weights, the blocks of
//! virtual shares they own, and the selection of weight-eligible subsets.

use crate::player::Player;
use crate::traits::{random_below, SecretSharingConfig};
use crate::threshold_config::{
    BatchEvaluationDomain,
    EvaluationDomain,
    ThresholdConfig,
    ThresholdConfigError,
};
use crate::weights::{
    all_positive,
    greedy_pick,
    is_first_zero,
    is_max_of,
    lemma_greedy_pick_minimal,
    lemma_greedy_pick_reaches,
    lemma_pair_order_total,
    lemma_pair_sum_nonneg,
    lemma_pair_sum_permutation,
    lemma_pair_sum_reverse,
    lemma_pair_sum_swap_remove,
    lemma_pairs_sum,
    lemma_prefix_sum_bounded,
    lemma_prefix_sum_full,
    lemma_prefix_sum_monotone,
    lemma_prefix_sum_step,
    lemma_window_sum_sorted,
    pair_order,
    pair_weight_sum,
    prefix_sum,
    sum,
    weight_index_pairs,
};
use rand_core::{CryptoRng, RngCore};
use vstd::prelude::*;
use vstd::relations::sorted_by;

verus! {

/// Relies on std's `slice::sort`: it orders the slice ascending by `Ord`, which
/// for a tuple is lexicographic, and only permutes its elements.
#[verifier::external_body]
fn sort_pairs(v: &mut Vec<(usize, usize)>)
    ensures
        final(v)@.to_multiset() == old(v)@.to_multiset(),
        sorted_by(final(v)@, pair_order()),
{
    v.sort();
}

/// The sequence `s` in reverse order.
fn reversed(s: &Vec<(usize, usize)>) -> (r: Vec<(usize, usize)>)
    ensures
        r@ == s@.reverse(),
{
    let n = s.len();
    let mut r: Vec<(usize, usize)> = Vec::with_capacity(n);
    let mut k: usize = 0;
    while k < n
        invariant
            n == s@.len(),
            0 <= k <= n,
            r@ =~= s@.reverse().take(k as int),
        decreases n - k,
    {
        r.push(s[n - 1 - k]);
        k = k + 1;
    }
    assert(r@ =~= s@.reverse());
    r
}

/// Why a weighted configuration could not be built.
#[derive(Clone, Copy, Debug, PartialEq, Eq, Structural)]
pub enum WeightedConfigError {
    /// The threshold weight is zero.
    InvalidThreshold,
    /// No player weights were given.
    EmptyWeightVector,
    /// The player at this index has weight zero (the first such index).
    ZeroPlayerWeight(usize),
    /// The unweighted `t`-out-of-`W` configuration refused the threshold
    /// weight and total weight.
    ThresholdConfig(ThresholdConfigError),
}

/// A `t`-out-of-`W` weighted threshold configuration: any subset of players
/// whose weights add up to at least `t` can reconstruct a dealt secret, where
/// `W` is the total weight. Player `i` owns the virtual shares
/// `[starting_index[i], starting_index[i] + weight[i])`.
#[derive(Clone, Debug, PartialEq, Eq)]
pub struct WeightedConfig {
    tc: ThresholdConfig,
    num_players: usize,
    weight: Vec<usize>,
    starting_index: Vec<usize>,
    max_player_weight: usize,
}

impl WeightedConfig {
    /// The unweighted `t`-out-of-`W` configuration that this one wraps.
    pub closed spec fn threshold_config(&self) -> ThresholdConfig {
        self.tc
    }

    /// The number of real players, `n`.
    pub closed spec fn num_players(&self) -> nat {
        self.num_players as nat
    }

    /// `weights()[i]` is the weight of player `i`.
    pub closed spec fn weights(&self) -> Seq<usize> {
        self.weight@
    }

    /// `starting_indices()[i]` is the first virtual share of player `i`.
    pub closed spec fn starting_indices(&self) -> Seq<usize> {
        self.starting_index@
    }

    /// The largest weight of any player.
    pub closed spec fn max_weight(&self) -> nat {
        self.max_player_weight as nat
    }

    /// The threshold weight `t`.
    pub open spec fn threshold_weight(&self) -> nat {
        self.threshold_config().threshold()
    }

    /// The total weight `W`: the number of virtual shares.
    pub open spec fn total_weight(&self) -> nat {
        self.threshold_config().num_shares()
    }

    /// At least one player, every weight positive, `1 <= t <= W` with `W` the
    /// sum of the weights, each starting index the exclusive prefix sum of the
    /// weights, and the cached maximum weight right.
    pub open spec fn wf(&self) -> bool {
        &&& self.threshold_config().wf()
        &&& self.num_players() == self.weights().len()
        &&& self.num_players() >= 1
        &&& all_positive(self.weights())
        &&& self.total_weight() == sum(self.weights())
        &&& self.starting_indices().len() == self.num_players()
        &&& forall|i: int|
            0 <= i < self.num_players() ==> #[trigger] self.starting_indices()[i] == prefix_sum(
                self.weights(),
                i,
            )
        &&& is_max_of(self.max_weight() as int, self.weights())
    }

    /// Player `p` owns virtual share `v`.
    pub open spec fn owns(&self, p: int, v: int) -> bool {
        &&& 0 <= p < self.num_players()
        &&& self.starting_indices()[p] <= v < self.starting_indices()[p] + self.weights()[p]
    }

    /// The (weight, player index) pairs of all players, sorted by weight and,
    /// among equal weights, by index.
    pub open spec fn players_by_weight(&self) -> Seq<(usize, usize)> {
        weight_index_pairs(self.weights()).sort_by(pair_order())
    }

    /// The heaviest players, heaviest first (the one with the larger index
    /// first among equal weights), up to the first whose addition brings the
    /// combined weight to the threshold.
    pub open spec fn best_case_subset(&self) -> Seq<Player> {
        greedy_pick(self.players_by_weight(), self.threshold_weight() as int)
    }

    /// The lightest players, lightest first (the one with the smaller index
    /// first among equal weights), up to the first whose addition brings the
    /// combined weight to the threshold.
    pub open spec fn worst_case_subset(&self) -> Seq<Player> {
        greedy_pick(self.players_by_weight().reverse(), self.threshold_weight() as int)
    }

    /// Combined weight of the players in `ps`.
    pub open spec fn subset_weight(&self, ps: Seq<Player>) -> int
        decreases ps.len(),
    {
        if ps.len() == 0 {
            0
        } else {
            self.subset_weight(ps.drop_last()) + self.weights()[ps.last().id as int]
        }
    }

    /// `ps` holds distinct players of this configuration.
    pub open spec fn distinct_players(&self, ps: Seq<Player>) -> bool {
        &&& forall|k: int| 0 <= k < ps.len() ==> #[trigger] ps[k].id < self.num_players()
        &&& forall|a: int, b: int|
            0 <= a < ps.len() && 0 <= b < ps.len() && a != b ==> ps[a].id != ps[b].id
    }

    /// Some player owns virtual share `v`.
    pub open spec fn has_owner(&self, v: int) -> bool {
        exists|p: int| self.owns(p, v)
    }

    /// Builds the configuration with threshold weight `threshold_weight`,
    /// where `weights[i]` is the weight of player `i`.
    pub fn new(threshold_weight: usize, weights: Vec<usize>) -> (r: Result<
        WeightedConfig,
        WeightedConfigError,
    >)
        requires
            sum(weights@) <= usize::MAX,
        ensures
            threshold_weight == 0 ==> r == Err::<WeightedConfig, _>(
                WeightedConfigError::InvalidThreshold,
            ),
            threshold_weight > 0 && weights@.len() == 0 ==> r == Err::<WeightedConfig, _>(
                WeightedConfigError::EmptyWeightVector,
            ),
            forall|i: int|
                threshold_weight > 0 && is_first_zero(weights@, i) ==> r == Err::<
                    WeightedConfig,
                    _,
                >(WeightedConfigError::ZeroPlayerWeight(i as usize)),
            threshold_weight > 0 && weights@.len() > 0 && all_positive(weights@)
                && threshold_weight > sum(weights@) ==> r == Err::<WeightedConfig, _>(
                WeightedConfigError::ThresholdConfig(ThresholdConfigError::ThresholdExceedsShares),
            ),
            threshold_weight > 0 && weights@.len() > 0 && all_positive(weights@)
                && threshold_weight <= sum(weights@) ==> r is Ok,
            r matches Ok(c) ==> c.wf() && c.weights() == weights@ && c.threshold_weight()
                == threshold_weight,
            r matches Ok(c) ==> c.starting_indices().len() == weights@.len()
                && c.starting_indices()[0] == 0,
    {
        if threshold_weight == 0 {
            return Err(WeightedConfigError::InvalidThreshold);
        }
        if weights.len() == 0 {
            return Err(WeightedConfigError::EmptyWeightVector);
        }
        let n = weights.len();
        let mut idx: usize = 0;
        while idx < n
            invariant
                n == weights@.len(),
                threshold_weight > 0,
                0 <= idx <= n,
                forall|j: int| 0 <= j < idx ==> weights@[j] > 0,
            decreases n - idx,
        {
            if weights[idx] == 0 {
                assert forall|k: int|
                    is_first_zero(weights@, k) implies k == idx as int by {
                    if k < idx {
                        assert(weights@[k] > 0);
                    } else if k > idx {
                        assert(weights@[idx as int] > 0);
                    }
                }
                return Err(WeightedConfigError::ZeroPlayerWeight(idx));
            }
            idx = idx + 1;
        }
        // e.g., weights [2, 4, 3] give 2 + 4 + 3 = 9 shares: player 0 owns
        // [0, 2), player 1 owns [2, 6) and player 2 owns [6, 9).
        let mut starting_index: Vec<usize> = Vec::with_capacity(n);
        let mut total: usize = 0;
        let mut max_player_weight: usize = weights[0];
        let mut i: usize = 0;
        while i < n
            invariant
                n == weights@.len(),
                n >= 1,
                0 <= i <= n,
                sum(weights@) <= usize::MAX,
                total == prefix_sum(weights@, i as int),
                starting_index@.len() == i,
                forall|j: int| 0 <= j < i ==> #[trigger] starting_index@[j] == prefix_sum(weights@, j),
                exists|j: int| 0 <= j < n && weights@[j] == max_player_weight,
                forall|j: int| 0 <= j < i ==> weights@[j] <= max_player_weight,
            decreases n - i,
        {
            proof {
                lemma_prefix_sum_step(weights@, i as int);
                lemma_prefix_sum_bounded(weights@, i as int + 1);
            }
            starting_index.push(total);
            total = total + weights[i];
            if weights[i] > max_player_weight {
                max_player_weight = weights[i];
            }
            i = i + 1;
        }
        proof {
            lemma_prefix_sum_full(weights@);
            assert(weights@.take(0) =~= Seq::<usize>::empty());
        }
        let tc = match ThresholdConfig::new(threshold_weight, total) {
            Ok(tc) => tc,
            Err(e) => {
                return Err(WeightedConfigError::ThresholdConfig(e));
            },
        };
        Ok(WeightedConfig { tc, num_players: n, weight: weights, starting_index, max_player_weight })
    }

    pub fn get_max_player_weight(&self) -> (r: usize)
        ensures
            r == self.max_weight(),
    {
        self.max_player_weight
    }

    pub fn get_threshold_config(&self) -> (r: &ThresholdConfig)
        ensures
            *r == self.threshold_config(),
    {
        &self.tc
    }

    pub fn get_threshold_weight(&self) -> (r: usize)
        ensures
            r == self.threshold_weight(),
    {
        self.tc.get_threshold()
    }

    pub fn get_total_weight(&self) -> (r: usize)
        ensures
            r == self.total_weight(),
    {
        self.tc.get_total_num_shares()
    }

    pub fn get_player_weight(&self, player: &Player) -> (r: usize)
        requires
            self.wf(),
            player.id < self.num_players(),
        ensures
            r == self.weights()[player.id as int],
    {
        self.weight[player.id]
    }

    pub fn get_player_starting_index(&self, player: &Player) -> (r: usize)
        requires
            self.wf(),
            player.id < self.num_players(),
        ensures
            r == self.starting_indices()[player.id as int],
    {
        self.starting_index[player.id]
    }

    /// The index, among all `W` virtual shares, of share `j` of player `i`, or
    /// `None` when player `i` has no more than `j` shares.
    pub fn get_share_index(&self, i: usize, j: usize) -> (r: Option<usize>)
        requires
            self.wf(),
            i < self.num_players(),
        ensures
            j < self.weights()[i as int] <==> r is Some,
            r matches Some(v) ==> v == self.starting_indices()[i as int] + j && v
                < self.total_weight(),
    {
        if j < self.weight[i] {
            proof {
                lemma_prefix_sum_step(self.weights(), i as int);
                lemma_prefix_sum_bounded(self.weights(), i as int + 1);
            }
            Some(self.starting_index[i] + j)
        } else {
            None
        }
    }

    /// The virtual player that holds share `j` of `player`: in an unweighted
    /// scheme each player has one share, and a weighted player is split into
    /// as many virtual players as its weight.
    pub fn get_virtual_player(&self, player: &Player, j: usize) -> (r: Player)
        requires
            self.wf(),
            player.id < self.num_players(),
            j < self.weights()[player.id as int],
        ensures
            r.id == self.starting_indices()[player.id as int] + j,
            self.owns(player.id as int, r.id as int),
            r.id < self.total_weight(),
    {
        let id = self.get_share_index(player.id, j).unwrap();
        Player { id }
    }

    /// All virtual players of `player`, in order of their shares.
    pub fn get_all_virtual_players(&self, player: &Player) -> (r: Vec<Player>)
        requires
            self.wf(),
            player.id < self.num_players(),
        ensures
            r@.len() == self.weights()[player.id as int],
            forall|k: int|
                0 <= k < r@.len() ==> #[trigger] r@[k].id == self.starting_indices()[player.id as int]
                    + k,
    {
        let w = self.get_player_weight(player);
        let mut r: Vec<Player> = Vec::with_capacity(w);
        let mut k: usize = 0;
        while k < w
            invariant
                self.wf(),
                player.id < self.num_players(),
                w == self.weights()[player.id as int],
                0 <= k <= w,
                r@.len() == k,
                forall|m: int|
                    0 <= m < k ==> #[trigger] r@[m].id == self.starting_indices()[player.id as int]
                        + m,
            decreases w - k,
        {
            r.push(self.get_virtual_player(player, k));
            k = k + 1;
        }
        r
    }

    pub fn get_batch_evaluation_domain(&self) -> (r: &BatchEvaluationDomain)
        ensures
            *r == self.threshold_config().batch_domain(),
    {
        self.tc.get_batch_evaluation_domain()
    }

    pub fn get_evaluation_domain(&self) -> (r: &EvaluationDomain)
        ensures
            *r == self.threshold_config().domain(),
    {
        self.tc.get_evaluation_domain()
    }

    /// The (weight, player index) pairs of all players, in player order.
    fn weighted_players(&self) -> (r: Vec<(usize, usize)>)
        requires
            self.wf(),
        ensures
            r@ == weight_index_pairs(self.weights()),
    {
        let n = self.num_players;
        let mut r: Vec<(usize, usize)> = Vec::with_capacity(n);
        let mut i: usize = 0;
        while i < n
            invariant
                self.wf(),
                n == self.num_players(),
                0 <= i <= n,
                r@ =~= weight_index_pairs(self.weights()).take(i as int),
            decreases n - i,
        {
            r.push((self.weight[i], i));
            i = i + 1;
        }
        assert(r@ =~= weight_index_pairs(self.weights()));
        r
    }

    fn sort_players_by_weight(&self) -> (r: Vec<(usize, usize)>)
        requires
            self.wf(),
        ensures
            r@ == self.players_by_weight(),
    {
        let mut player_and_weights = self.weighted_players();
        sort_pairs(&mut player_and_weights);
        proof {
            let pairs = weight_index_pairs(self.weights());
            lemma_pair_order_total();
            pairs.lemma_sort_by_ensures(pair_order());
            vstd::seq_lib::lemma_sorted_unique(
                player_and_weights@,
                pairs.sort_by(pair_order()),
                pair_order(),
            );
        }
        player_and_weights
    }

    /// Takes pairs off the end of `player_and_weights` until the players
    /// taken weigh at least the threshold, and returns those players in the
    /// order taken.
    fn pop_eligible_subset(&self, player_and_weights: &mut Vec<(usize, usize)>) -> (r: Vec<
        Player,
    >)
        requires
            self.wf(),
            self.threshold_weight() <= pair_weight_sum(old(player_and_weights)@) <= usize::MAX,
            forall|k: int|
                0 <= k < old(player_and_weights)@.len() ==> #[trigger] old(
                    player_and_weights,
                )@[k].1 < self.num_players(),
        ensures
            r@ == greedy_pick(old(player_and_weights)@, self.threshold_weight() as int),
            final(player_and_weights)@ == old(player_and_weights)@.take(
                old(player_and_weights)@.len() - r@.len(),
            ),
    {
        let ghost orig = player_and_weights@;
        let t = self.tc.get_threshold();
        let mut picked_players: Vec<Player> = Vec::new();
        let mut current_weight: usize = 0;
        while current_weight < t
            invariant
                self.wf(),
                t == self.threshold_weight(),
                t <= pair_weight_sum(orig) <= usize::MAX,
                forall|k: int| 0 <= k < orig.len() ==> #[trigger] orig[k].1 < self.num_players(),
                picked_players@.len() <= orig.len(),
                player_and_weights@ == orig.take(orig.len() - picked_players@.len()),
                current_weight + pair_weight_sum(player_and_weights@) == pair_weight_sum(orig),
                picked_players@ + greedy_pick(player_and_weights@, t - current_weight)
                    == greedy_pick(orig, t as int),
            decreases player_and_weights@.len(),
        {
            proof {
                if player_and_weights@.len() == 0 {
                    assert(player_and_weights@ =~= Seq::<(usize, usize)>::empty());
                } else {
                    lemma_pair_sum_nonneg(player_and_weights@.drop_last());
                }
            }
            let ghost before = player_and_weights@;
            let (weight, player_idx) = player_and_weights.pop().unwrap();
            assert(player_and_weights@ =~= orig.take(orig.len() - picked_players@.len() - 1));
            let ghost picked_before = picked_players@;
            picked_players.push(self.get_player(player_idx));
            // rinse and repeat until the picked players jointly have enough weight
            current_weight = current_weight + weight;
            assert(picked_players@ + greedy_pick(player_and_weights@, t - current_weight)
                =~= picked_before + greedy_pick(before, t - (current_weight - weight)));
        }
        assert(greedy_pick(player_and_weights@, t - current_weight) =~= Seq::<Player>::empty());
        assert(picked_players@ =~= greedy_pick(orig, t as int));
        picked_players
    }

    /// The subset that needs the fewest players: the heaviest players are
    /// picked first. The random source is not used; it keeps the calling
    /// convention of `get_random_eligible_subset_of_players`.
    pub fn get_best_case_eligible_subset_of_players<R: RngCore + CryptoRng>(
        &self,
        _rng: &mut R,
    ) -> (r: Vec<Player>)
        requires
            self.wf(),
        ensures
            r@ == self.best_case_subset(),
            *final(_rng) == *old(_rng),
    {
        let mut player_and_weights = self.sort_players_by_weight();
        proof {
            self.lemma_sorted_pairs(player_and_weights@);
        }
        self.pop_eligible_subset(&mut player_and_weights)
    }

    /// The subset that needs the most players: the lightest players are
    /// picked first. The random source is not used; it keeps the calling
    /// convention of `get_random_eligible_subset_of_players`.
    pub fn get_worst_case_eligible_subset_of_players<R: RngCore + CryptoRng>(
        &self,
        _rng: &mut R,
    ) -> (r: Vec<Player>)
        requires
            self.wf(),
        ensures
            r@ == self.worst_case_subset(),
            *final(_rng) == *old(_rng),
    {
        let sorted = self.sort_players_by_weight();
        let mut player_and_weights = reversed(&sorted);
        proof {
            self.lemma_sorted_pairs(sorted@);
            lemma_pair_sum_reverse(sorted@);
        }
        self.pop_eligible_subset(&mut player_and_weights)
    }

    /// The sorted pairs weigh `W` in all and name players of this
    /// configuration.
    proof fn lemma_sorted_pairs(&self, s: Seq<(usize, usize)>)
        requires
            self.wf(),
            s == self.players_by_weight(),
        ensures
            pair_weight_sum(s) == self.total_weight(),
            forall|k: int| 0 <= k < s.len() ==> #[trigger] s[k].1 < self.num_players(),
    {
        broadcast use vstd::seq_lib::group_to_multiset_ensures;

        let pairs = weight_index_pairs(self.weights());
        lemma_pair_order_total();
        pairs.lemma_sort_by_ensures(pair_order());
        lemma_pair_sum_permutation(s, pairs);
        lemma_pairs_sum(self.weights());
        assert forall|k: int| 0 <= k < s.len() implies #[trigger] s[k].1 < self.num_players() by {
            assert(s.to_multiset().count(s[k]) > 0) by {
                assert(s.contains(s[k]));
            }
            assert(pairs.contains(s[k]));
        }
    }
}

impl SecretSharingConfig for WeightedConfig {
    open spec fn config_wf(&self) -> bool {
        self.wf()
    }

    open spec fn total_num_players(&self) -> nat {
        self.num_players()
    }

    open spec fn total_num_shares(&self) -> nat {
        self.total_weight()
    }

    /// Distinct players whose combined weight reaches the threshold, and
    /// would not without the last one picked.
    open spec fn is_eligible_subset(&self, ps: Seq<Player>) -> bool {
        &&& self.distinct_players(ps)
        &&& ps.len() >= 1
        &&& self.subset_weight(ps) >= self.threshold_weight()
        &&& self.subset_weight(ps.drop_last()) < self.threshold_weight()
    }

    fn get_random_player<R: RngCore + CryptoRng>(&self, rng: &mut R) -> (r: Player)
    {
        Player { id: random_below(rng, self.num_players) }
    }

    /// Picks players uniformly at random, without replacement, until their
    /// combined weight reaches the threshold.
    fn get_random_eligible_subset_of_players<R: RngCore>(&self, rng: &mut R) -> (r: Vec<
        Player,
    >)
    {
        let ghost n = self.num_players();
        let t = self.tc.get_threshold();
        // the randomly-picked "capable" subset of players who can reconstruct the secret
        let mut picked_players: Vec<Player> = Vec::new();
        // the remaining players that we are picking a "capable" subset from
        let mut player_and_weights = self.weighted_players();
        let mut current_weight: usize = 0;
        proof {
            lemma_pairs_sum(self.weights());
        }
        while current_weight < t
            invariant
                self.wf(),
                t == self.threshold_weight(),
                n == self.num_players(),
                forall|k: int|
                    0 <= k < player_and_weights@.len() ==> {
                        &&& #[trigger] player_and_weights@[k].1 < n
                        &&& player_and_weights@[k].0 == self.weights()[player_and_weights@[k].1 as int]
                    },
                forall|a: int, b: int|
                    0 <= a < player_and_weights@.len() && 0 <= b < player_and_weights@.len() && a
                        != b ==> player_and_weights@[a].1 != player_and_weights@[b].1,
                forall|j: int, k: int|
                    0 <= j < picked_players@.len() && 0 <= k < player_and_weights@.len()
                        ==> picked_players@[j].id != player_and_weights@[k].1,
                self.distinct_players(picked_players@),
                current_weight == self.subset_weight(picked_players@),
                current_weight + pair_weight_sum(player_and_weights@) == self.total_weight(),
                picked_players@.len() == 0 ==> current_weight == 0,
                picked_players@.len() > 0 ==> self.subset_weight(picked_players@.drop_last()) < t,
            decreases player_and_weights@.len(),
        {
            let len = player_and_weights.len();
            proof {
                if len == 0 {
                    assert(player_and_weights@ =~= Seq::<(usize, usize)>::empty());
                }
            }
            // pick a random player, and move it to the picked set
            let idx = random_below(rng, len);
            let ghost before = player_and_weights@;
            let ghost picked_before = picked_players@;
            let (weight, player_id) = player_and_weights.swap_remove(idx);
            proof {
                lemma_pair_sum_swap_remove(before, idx as int);
                lemma_pair_sum_nonneg(player_and_weights@);
            }
            picked_players.push(self.get_player(player_id));
            assert(picked_players@.drop_last() =~= picked_before);
            // rinse and repeat until the picked players jointly have enough weight
            current_weight = current_weight + weight;
            assert forall|j: int, k: int|
                0 <= j < picked_players@.len() && 0 <= k < player_and_weights@.len()
                    implies picked_players@[j].id != player_and_weights@[k].1 by {
                if k == idx {
                    assert(player_and_weights@[k] == before[len - 1]);
                } else {
                    assert(player_and_weights@[k] == before[k]);
                }
            }
            assert forall|a: int, b: int|
                0 <= a < player_and_weights@.len() && 0 <= b < player_and_weights@.len() && a
                    != b implies player_and_weights@[a].1 != player_and_weights@[b].1 by {
                let a0 = if a == idx { len - 1 } else { a };
                let b0 = if b == idx { len - 1 } else { b };
                assert(player_and_weights@[a] == before[a0]);
                assert(player_and_weights@[b] == before[b0]);
            }
            assert forall|k: int| 0 <= k < player_and_weights@.len() implies {
                &&& #[trigger] player_and_weights@[k].1 < n
                &&& player_and_weights@[k].0 == self.weights()[player_and_weights@[k].1 as int]
            } by {
                let k0 = if k == idx { len - 1 } else { k };
                assert(player_and_weights@[k] == before[k0]);
            }
        }
        picked_players
    }

    fn get_total_num_players(&self) -> (r: usize) {
        self.num_players
    }

    fn get_total_num_shares(&self) -> (r: usize) {
        self.tc.get_total_num_shares()
    }
}

/// Some player owns virtual share `v`, searching among the players before `i`.
proof fn lemma_owner_exists(c: WeightedConfig, v: int, i: int)
    requires
        c.wf(),
        0 <= v,
        0 <= i <= c.num_players(),
        v < prefix_sum(c.weights(), i),
    ensures
        c.has_owner(v),
    decreases i,
{
    if i == 0 {
        assert(c.weights().take(0) =~= Seq::<usize>::empty());
    } else {
        lemma_prefix_sum_step(c.weights(), i - 1);
        if prefix_sum(c.weights(), i - 1) <= v {
            assert(c.owns(i - 1, v));
        } else {
            lemma_owner_exists(c, v, i - 1);
        }
    }
}

/// The blocks of virtual shares of the players partition `[0, W)`: each
/// virtual share in `[0, W)` is owned by exactly one player, and no player
/// owns a share outside `[0, W)`.
pub proof fn lemma_virtual_shares_partition(c: WeightedConfig)
    requires
        c.wf(),
    ensures
        forall|v: int| 0 <= v < c.total_weight() ==> #[trigger] c.has_owner(v),
        forall|p: int, q: int, v: int| #[trigger] c.owns(p, v) && #[trigger] c.owns(q, v) ==> p == q,
        forall|p: int, v: int| #[trigger] c.owns(p, v) ==> 0 <= v < c.total_weight(),
{
    let w = c.weights();
    let n = c.num_players() as int;
    assert forall|v: int| 0 <= v < c.total_weight() implies #[trigger] c.has_owner(v) by {
        lemma_prefix_sum_full(w);
        lemma_owner_exists(c, v, n);
    }
    assert forall|p: int, q: int, v: int| #[trigger] c.owns(p, v) && #[trigger] c.owns(q, v) implies p
        == q by {
        if p < q {
            lemma_prefix_sum_step(w, p);
            lemma_prefix_sum_monotone(w, p + 1, q);
        } else if q < p {
            lemma_prefix_sum_step(w, q);
            lemma_prefix_sum_monotone(w, q + 1, p);
        }
    }
    assert forall|p: int, v: int| #[trigger] c.owns(p, v) implies 0 <= v < c.total_weight() by {
        lemma_prefix_sum_step(w, p);
        lemma_prefix_sum_bounded(w, p);
        lemma_prefix_sum_bounded(w, p + 1);
    }
}

/// With the same weights and threshold, the best-case eligible subset has no
/// more players than the worst-case eligible subset.
pub proof fn lemma_best_case_no_larger_than_worst_case(c: WeightedConfig)
    requires
        c.wf(),
    ensures
        c.best_case_subset().len() <= c.worst_case_subset().len(),
{
    let s = c.players_by_weight();
    let n = s.len() as int;
    let t = c.threshold_weight() as int;
    let pairs = weight_index_pairs(c.weights());
    lemma_pair_order_total();
    pairs.lemma_sort_by_ensures(pair_order());
    c.lemma_sorted_pairs(s);
    lemma_pair_sum_reverse(s);
    let rev = s.reverse();
    let kw = greedy_pick(rev, t).len() as int;
    lemma_greedy_pick_reaches(rev, t);
    assert(rev.subrange(n - kw, n) =~= s.subrange(0, kw).reverse());
    lemma_pair_sum_reverse(s.subrange(0, kw));
    lemma_window_sum_sorted(s, 0, n - kw, kw);
    lemma_greedy_pick_minimal(s, t, kw);
}

} // verus!
