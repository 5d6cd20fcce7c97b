//! The capabilities that protocol code asks of any secret-sharing
//! configuration, weighted or not, so that it can be written once for both.

use crate::player::Player;
use rand::Rng;
use rand_core::{CryptoRng, RngCore};
use vstd::prelude::*;

verus! {

/// Relies on rand's `Rng::gen_range(low, high)`, which returns a value in
/// `[low, high)` and panics when `low >= high`.
#[verifier::external_body]
pub(crate) fn random_below<R: RngCore>(rng: &mut R, upper: usize) -> (r: usize)
    requires
        0 < upper,
    ensures
        r < upper,
{
    rng.gen_range(0, upper)
}

pub trait SecretSharingConfig {
    /// The configuration is well formed.
    spec fn config_wf(&self) -> bool;

    /// The number of real players.
    spec fn total_num_players(&self) -> nat;

    /// The number of shares dealt across all players.
    spec fn total_num_shares(&self) -> nat;

    /// `ps` is a subset of players that can reconstruct the secret, picked
    /// as the selection strategy of this configuration picks them.
    spec fn is_eligible_subset(&self, ps: Seq<Player>) -> bool;

    /// The player with index `i`.
    fn get_player(&self, i: usize) -> (r: Player)
        requires
            i < self.total_num_players(),
        ensures
            r.id == i,
    {
        Player { id: i }
    }

    /// A uniformly random player. Meant for testing.
    fn get_random_player<R: RngCore + CryptoRng>(&self, rng: &mut R) -> (r: Player)
        requires
            self.config_wf(),
        ensures
            r.id < self.total_num_players(),
    ;

    /// A random subset of players that can reconstruct the secret.
    fn get_random_eligible_subset_of_players<R: RngCore>(&self, rng: &mut R) -> (r: Vec<Player>)
        requires
            self.config_wf(),
        ensures
            self.is_eligible_subset(r@),
    ;

    fn get_total_num_players(&self) -> (r: usize)
        ensures
            r == self.total_num_players(),
    ;

    fn get_total_num_shares(&self) -> (r: usize)
        ensures
            r == self.total_num_shares(),
    ;
}

} // verus!
