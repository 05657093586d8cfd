//! The player's side of the werewolf role. A werewolf votes at night with the other werewolves.

use vstd::prelude::*;
use vstd::string::*;
use crate::text::decimal;
use crate::player::who;

verus! {

/// The werewolf role as a player holds it.
pub struct Werewolf {}

impl Werewolf {
    /// The role.
    pub fn new() -> (r: Werewolf)
    {
        Werewolf {}
    }

    /// What the player is told on receiving the role.
    pub fn born(&self, id: u64, username: &str) -> (s: String)
        ensures
            s@ == username@ + "（"@ + decimal(id as nat) + " 号）"@ + "你的角色是 狼人。"@,
    {
        let mut s = who(username, id);
        s.append("你的角色是 狼人。");
        s
    }
}

} // verus!
