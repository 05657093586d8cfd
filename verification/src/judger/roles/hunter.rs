//! The hunter: when the hunter dies, the hunter shoots a living player.

use vstd::prelude::*;
use vstd::string::*;
use crate::judger::roles::Seat;
use crate::judger::roles::responder::widget::{VoteEntry, entries_view, votelist_spec, living_votelist};
use crate::judger::{picks, is_living};

verus! {

/// The hunter's group.
pub struct Hunter {}

impl Hunter {
    /// The players the dying hunter may shoot: the living ones, in seat
    /// order.
    pub fn targets(players: &Vec<Seat>) -> (res: Vec<VoteEntry>)
        ensures
            entries_view(res@) == votelist_spec(picks(players@, |s: Seat| is_living(s)).map_values(|i: usize| players@[i as int])),
    {
        living_votelist(players)
    }

    /// What the hunter is asked when shooting.
    pub fn shoot_prompt() -> (s: String)
        ensures
            s@ == "选择开枪对象"@,
    {
        String::from_str("选择开枪对象")
    }
}

} // verus!
