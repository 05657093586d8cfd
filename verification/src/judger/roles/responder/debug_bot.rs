//! A bot for trying the game out: it always passes when asked to talk and
//! votes at random.

use rand::Rng;
use vstd::prelude::*;
use vstd::string::*;
use crate::judger::roles::{Identity, LifeStatus, display_name, make_display_name};
use crate::judger::roles::responder::widget::{VoteEntry, ballot_detail_spec};

verus! {

/// A number drawn at random by `rand`'s thread-local generator. Nothing is
/// stated of it: any value may come back.
#[verifier::external_body]
fn random_usize() -> (r: usize)
{
    rand::thread_rng().gen::<usize>()
}

/// The bot's state as a player.
pub struct DebugBot {
    pub id: usize,
    pub status: LifeStatus,
    pub role: Identity,
    pub username: String,
}

/// The nickname every bot takes.
pub open spec fn bot_username() -> Seq<char> {
    "舔一舔"@
}

impl DebugBot {
    /// A bot with no seat number, role or nickname yet.
    pub fn new() -> (b: DebugBot)
        ensures
            b.id == 0,
            b.status == LifeStatus::Alive,
            b.role == Identity::Raw,
            b.username@.len() == 0,
    {
        DebugBot { id: 0, status: LifeStatus::Alive, role: Identity::Raw, username: String::new() }
    }

    /// What the bot says when asked to talk or for last words.
    pub fn rec_text(&self) -> (s: String)
        ensures
            s@ == "好人，过。"@,
    {
        String::from_str("好人，过。")
    }

    /// The bot's ballot when the random draw is `r`: the candidate at
    /// position `r` modulo the number of candidates.
    pub fn ballot(&self, list: &Vec<VoteEntry>, r: usize) -> (res: (String, usize))
        requires
            list.len() > 0,
        ensures
            res.1 == list@[(r % list.len()) as int].0,
            res.0@ == ballot_detail_spec(display_name(self.username@, self.id as nat), list@[(r % list.len()) as int].1@),
    {
        let t = r % list.len();
        let mut d = self.name();
        d.append(" -> ");
        d.append(list[t].1.as_str());
        (d, list[t].0)
    }

    /// The bot votes for a candidate drawn at random.
    pub fn vote(&self, _msg: &str, list: &Vec<VoteEntry>) -> (res: (String, usize))
        requires
            list.len() > 0,
        ensures
            exists|t: int| 0 <= t < list.len() && res.1 == (#[trigger] list@[t]).0
                && res.0@ == ballot_detail_spec(display_name(self.username@, self.id as nat), list@[t].1@),
    {
        let r = random_usize();
        let res = self.ballot(list, r);
        assert(list@[(r % list.len()) as int].0 == res.1);
        res
    }

    /// The bot's role.
    pub fn role(&self) -> (r: Identity)
        ensures
            r == self.role,
    {
        self.role
    }

    /// Gives the bot a role.
    pub fn set_role(&mut self, r: Identity)
        ensures
            *final(self) == (DebugBot { role: r, ..*old(self) }),
    {
        self.role = r;
    }

    /// Whether the bot is alive.
    pub fn status(&self) -> (s: LifeStatus)
        ensures
            s == self.status,
    {
        self.status
    }

    /// Sets whether the bot is alive.
    pub fn set_status(&mut self, s: LifeStatus)
        ensures
            *final(self) == (DebugBot { status: s, ..*old(self) }),
    {
        self.status = s;
    }

    /// The bot takes its nickname.
    pub fn set_name(&mut self)
        ensures
            final(self).username@ == bot_username(),
            final(self).id == old(self).id,
            final(self).status == old(self).status,
            final(self).role == old(self).role,
    {
        self.username = String::from_str("舔一舔");
    }

    /// The name under which the bot appears in messages.
    pub fn name(&self) -> (s: String)
        ensures
            s@ == display_name(self.username@, self.id as nat),
    {
        make_display_name(self.username.as_str(), self.id)
    }

    /// Gives the bot its seat number.
    pub fn set_id(&mut self, id: usize)
        ensures
            *final(self) == (DebugBot { id: id, ..*old(self) }),
    {
        self.id = id;
    }

    /// The bot's seat number.
    pub fn get_id(&self) -> (id: usize)
        ensures
            id == self.id,
    {
        self.id
    }
}

} // verus!
