//! Configuration and indexing layer of a weighted threshold secret-sharing
//! scheme: players own contiguous blocks of "virtual" unweighted shares, and
//! subsets of players are selected whose combined weight meets a threshold.

pub mod player;
pub mod threshold_config;
pub mod traits;
pub mod weighted_config;
pub mod weights;
