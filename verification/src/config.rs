//! Matchmaking configuration: players per team and the (reserved) number
//! of teams per match.

use vstd::prelude::*;

verus! {

/// Configuration for the matchmaker. `group_size` is the number of
/// players per team; `teams_per_match` is reserved and the formulation
/// always produces two teams.
#[derive(Clone, Copy, PartialEq, Eq, Structural, Debug)]
pub struct SlamConfig {
    pub group_size: u8,
    pub teams_per_match: u8,
}

impl SlamConfig {
    /// A well-formed configuration has a positive team size.
    pub open spec fn wf(self) -> bool {
        self.group_size >= 1
    }

    pub fn new(group_size: u8, teams_per_match: u8) -> (r: Self)
        ensures
            r.group_size == group_size,
            r.teams_per_match == teams_per_match,
    {
        SlamConfig { group_size, teams_per_match }
    }
}

} // verus!
