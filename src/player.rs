use vstd::prelude::*;

verus! {

/// A real protocol participant, identified by its index in `[0, num_players)`.
/// The same type also names a virtual player, by an index in `[0, W)`.
#[derive(Clone, Copy, Debug, PartialEq, Eq, PartialOrd, Ord, Hash, Structural)]
pub struct Player {
    pub id: usize,
}

impl Player {
    pub fn get_id(&self) -> (r: usize)
        ensures
            r == self.id,
    {
        self.id
    }
}

} // verus!
