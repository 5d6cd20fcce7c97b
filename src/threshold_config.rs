use crate::player::Player;
use crate::traits::{random_below, SecretSharingConfig};
use rand_core::{CryptoRng, RngCore};
use vstd::prelude::*;

verus! {

/// The evaluation domain over which the shares of an unweighted configuration
/// are interpolated; only its number of points is tracked here.
#[derive(Clone, Copy, Debug, PartialEq, Eq, Structural)]
pub struct EvaluationDomain {
    n: usize,
}

/// The batch evaluation domain from which `EvaluationDomain`s are drawn; only
/// its number of points is tracked here.
#[derive(Clone, Copy, Debug, PartialEq, Eq, Structural)]
pub struct BatchEvaluationDomain {
    n: usize,
}

impl EvaluationDomain {
    pub closed spec fn size(&self) -> nat {
        self.n as nat
    }

    pub fn get_size(&self) -> (r: usize)
        ensures
            r == self.size(),
    {
        self.n
    }
}

impl BatchEvaluationDomain {
    pub closed spec fn size(&self) -> nat {
        self.n as nat
    }

    pub fn get_size(&self) -> (r: usize)
        ensures
            r == self.size(),
    {
        self.n
    }
}

/// Why an unweighted `t`-out-of-`n` configuration could not be built.
#[derive(Clone, Copy, Debug, PartialEq, Eq, Structural)]
pub enum ThresholdConfigError {
    /// The reconstruction threshold `t` is zero.
    ZeroThreshold,
    /// The reconstruction threshold `t` exceeds the number of shares `n`.
    ThresholdExceedsShares,
}

/// An unweighted `t`-out-of-`n` threshold configuration: any `t` of the `n`
/// shares reconstruct the secret.
#[derive(Clone, Copy, Debug, PartialEq, Eq, Structural)]
pub struct ThresholdConfig {
    t: usize,
    n: usize,
    batch_dom: BatchEvaluationDomain,
    dom: EvaluationDomain,
}

impl ThresholdConfig {
    /// The reconstruction threshold.
    pub closed spec fn threshold(&self) -> nat {
        self.t as nat
    }

    /// The number of shares.
    pub closed spec fn num_shares(&self) -> nat {
        self.n as nat
    }

    /// The batch evaluation domain over the `n` shares.
    pub closed spec fn batch_domain(&self) -> BatchEvaluationDomain {
        self.batch_dom
    }

    /// The evaluation domain over the `n` shares.
    pub closed spec fn domain(&self) -> EvaluationDomain {
        self.dom
    }

    /// `1 <= t <= n`, and both domains have `n` points.
    pub open spec fn wf(&self) -> bool {
        &&& 1 <= self.threshold() <= self.num_shares() <= usize::MAX
        &&& self.batch_domain().size() == self.num_shares()
        &&& self.domain().size() == self.num_shares()
    }

    /// Builds a `t`-out-of-`n` configuration, failing when `t` is zero or
    /// exceeds `n`.
    pub fn new(t: usize, n: usize) -> (r: Result<ThresholdConfig, ThresholdConfigError>)
        ensures
            t == 0 ==> r == Err::<ThresholdConfig, _>(ThresholdConfigError::ZeroThreshold),
            0 < t && t > n ==> r == Err::<ThresholdConfig, _>(
                ThresholdConfigError::ThresholdExceedsShares,
            ),
            0 < t <= n ==> r is Ok,
            r matches Ok(c) ==> c.wf() && c.threshold() == t && c.num_shares() == n,
    {
        if t == 0 {
            return Err(ThresholdConfigError::ZeroThreshold);
        }
        if t > n {
            return Err(ThresholdConfigError::ThresholdExceedsShares);
        }
        let batch_dom = BatchEvaluationDomain { n };
        let dom = EvaluationDomain { n };
        Ok(ThresholdConfig { t, n, batch_dom, dom })
    }

    pub fn get_threshold(&self) -> (r: usize)
        ensures
            r == self.threshold(),
    {
        self.t
    }

    pub fn get_total_num_shares(&self) -> (r: usize)
        ensures
            r == self.num_shares(),
    {
        self.n
    }

    pub fn get_batch_evaluation_domain(&self) -> (r: &BatchEvaluationDomain)
        ensures
            *r == self.batch_domain(),
    {
        &self.batch_dom
    }

    pub fn get_evaluation_domain(&self) -> (r: &EvaluationDomain)
        ensures
            *r == self.domain(),
    {
        &self.dom
    }
}

impl SecretSharingConfig for ThresholdConfig {
    open spec fn config_wf(&self) -> bool {
        self.wf()
    }

    open spec fn total_num_players(&self) -> nat {
        self.num_shares()
    }

    open spec fn total_num_shares(&self) -> nat {
        self.num_shares()
    }

    /// Exactly `t` distinct players: each holds one share.
    open spec fn is_eligible_subset(&self, ps: Seq<Player>) -> bool {
        &&& ps.len() == self.threshold()
        &&& forall|k: int| 0 <= k < ps.len() ==> #[trigger] ps[k].id < self.num_shares()
        &&& forall|a: int, b: int|
            0 <= a < ps.len() && 0 <= b < ps.len() && a != b ==> ps[a].id != ps[b].id
    }

    fn get_random_player<R: RngCore + CryptoRng>(&self, rng: &mut R) -> (r: Player) {
        Player { id: random_below(rng, self.n) }
    }

    /// Picks `t` players uniformly at random, without replacement.
    fn get_random_eligible_subset_of_players<R: RngCore>(&self, rng: &mut R) -> (r: Vec<Player>) {
        let n = self.n;
        let t = self.t;
        // the players that can still be picked
        let mut remaining: Vec<usize> = Vec::with_capacity(n);
        let mut i: usize = 0;
        while i < n
            invariant
                0 <= i <= n,
                remaining@ == Seq::new(i as nat, |k: int| k as usize),
            decreases n - i,
        {
            remaining.push(i);
            i = i + 1;
            assert(remaining@ =~= Seq::new(i as nat, |k: int| k as usize));
        }
        let mut picked: Vec<Player> = Vec::with_capacity(t);
        while picked.len() < t
            invariant
                self.wf(),
                n == self.num_shares(),
                t == self.threshold(),
                picked@.len() + remaining@.len() == n,
                picked@.len() <= t,
                forall|k: int| 0 <= k < remaining@.len() ==> #[trigger] remaining@[k] < n,
                forall|a: int, b: int|
                    0 <= a < remaining@.len() && 0 <= b < remaining@.len() && a != b
                        ==> remaining@[a] != remaining@[b],
                forall|j: int, k: int|
                    0 <= j < picked@.len() && 0 <= k < remaining@.len() ==> picked@[j].id
                        != remaining@[k],
                forall|k: int| 0 <= k < picked@.len() ==> #[trigger] picked@[k].id < n,
                forall|a: int, b: int|
                    0 <= a < picked@.len() && 0 <= b < picked@.len() && a != b ==> picked@[a].id
                        != picked@[b].id,
            decreases remaining@.len(),
        {
            let len = remaining.len();
            let idx = random_below(rng, len);
            let ghost before = remaining@;
            let id = remaining.swap_remove(idx);
            picked.push(Player { id });
            assert forall|j: int, k: int|
                0 <= j < picked@.len() && 0 <= k < remaining@.len() implies picked@[j].id
                != remaining@[k] by {
                let k0 = if k == idx { len - 1 } else { k };
                assert(remaining@[k] == before[k0]);
            }
            assert forall|a: int, b: int|
                0 <= a < remaining@.len() && 0 <= b < remaining@.len() && a != b implies remaining@[a]
                != remaining@[b] by {
                let a0 = if a == idx { len - 1 } else { a };
                let b0 = if b == idx { len - 1 } else { b };
                assert(remaining@[a] == before[a0]);
                assert(remaining@[b] == before[b0]);
            }
            assert forall|k: int| 0 <= k < remaining@.len() implies #[trigger] remaining@[k] < n by {
                let k0 = if k == idx { len - 1 } else { k };
                assert(remaining@[k] == before[k0]);
            }
        }
        picked
    }

    fn get_total_num_players(&self) -> (r: usize) {
        self.n
    }

    fn get_total_num_shares(&self) -> (r: usize) {
        self.n
    }
}

} // verus!
