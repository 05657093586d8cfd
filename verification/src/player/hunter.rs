//! The player's side of the hunter role. A hunter shoots a player when dying.

use vstd::prelude::*;
use vstd::string::*;
use crate::text::decimal;
use crate::player::who;

verus! {

/// The hunter role as a player holds it.
pub struct Hunter {}

impl Hunter {
    /// The role.
    pub fn new() -> (r: Hunter)
    {
        Hunter {}
    }

    /// What the player is told on receiving the role.
    pub fn born(&self, id: u64, username: &str) -> (s: String)
        ensures
            s@ == username@ + "（"@ + decimal(id as nat) + " 号）"@ + "你的角色是 猎人"@,
    {
        let mut s = who(username, id);
        s.append("你的角色是 猎人");
        s
    }
}

} // verus!
