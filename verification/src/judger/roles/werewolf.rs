//! The werewolves: each night they vote on a living player to kill.

use vstd::prelude::*;
use vstd::string::*;
use crate::judger::roles::Seat;
use crate::judger::roles::responder::widget::{VoteEntry, entries_view, votelist_spec, living_votelist};
use crate::judger::{picks, is_living, is_living_wolf, seats_where_living_wolf};

verus! {

/// The werewolves' group.
pub struct Werewolf {}

impl Werewolf {
    /// The night vote: the living werewolves vote, in seat order, on any
    /// living player.
    pub fn night(players: &Vec<Seat>) -> (res: (Vec<usize>, Vec<VoteEntry>))
        ensures
            res.0@ == picks(players@, |s: Seat| is_living_wolf(s)),
            entries_view(res.1@) == votelist_spec(picks(players@, |s: Seat| is_living(s)).map_values(|i: usize| players@[i as int])),
    {
        (seats_where_living_wolf(players), living_votelist(players))
    }

    /// What the werewolves are asked at night.
    pub fn kill_prompt() -> (s: String)
        ensures
            s@ == "选出要刀的人。"@,
    {
        String::from_str("选出要刀的人。")
    }
}

} // verus!
