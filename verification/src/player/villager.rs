//! The player's side of the villager role. A villager has no power of its own.

use vstd::prelude::*;
use vstd::string::*;
use crate::text::decimal;
use crate::player::who;

verus! {

/// The villager role as a player holds it.
pub struct Villager {}

impl Villager {
    /// The role.
    pub fn new() -> (r: Villager)
    {
        Villager {}
    }

    /// What the player is told on receiving the role.
    pub fn born(&self, id: u64, username: &str) -> (s: String)
        ensures
            s@ == username@ + "（"@ + decimal(id as nat) + " 号）"@ + "你的角色是 平民。"@,
    {
        let mut s = who(username, id);
        s.append("你的角色是 平民。");
        s
    }
}

} // verus!
