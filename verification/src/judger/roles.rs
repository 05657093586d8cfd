//! Roles, life status, the seats of the game, and the handling of deaths.

pub mod hunter;
pub mod responder;
pub mod werewolf;

use vstd::prelude::*;
use vstd::string::*;
use crate::text::{decimal, usize_to_string};

verus! {

/// Why a player died. Some causes have effects of their own.
#[derive(PartialEq, Eq, Structural, Clone, Copy, Debug)]
pub enum DeathReason {
    Normal,
    Gun,
}

/// Whether a player is alive, dead, or died in the phase just played and
/// still has to be dealt with.
#[derive(PartialEq, Eq, Structural, Clone, Copy, Debug)]
pub enum LifeStatus {
    Alive,
    Dead,
    NewDeath(DeathReason),
}

/// The role of a player; `Raw` before roles are handed out.
#[derive(PartialEq, Eq, Structural, Clone, Copy, Debug)]
pub enum Identity {
    Villager,
    Werewolf,
    Hunter,
    Raw,
}

/// The name of a role as players see it.
pub open spec fn identity_name(i: Identity) -> Seq<char> {
    match i {
        Identity::Villager => "平民"@,
        Identity::Werewolf => "狼人"@,
        Identity::Hunter => "猎人"@,
        Identity::Raw => "Raw"@,
    }
}

impl Identity {
    /// The name of the role as players see it.
    pub fn name(&self) -> (s: String)
        ensures
            s@ == identity_name(*self),
    {
        match self {
            Identity::Villager => String::from_str("平民"),
            Identity::Werewolf => String::from_str("狼人"),
            Identity::Hunter => String::from_str("猎人"),
            Identity::Raw => String::from_str("Raw"),
        }
    }
}

/// The behaviour a role brings to the night and to its death.
#[derive(PartialEq, Eq, Structural, Clone, Copy, Debug)]
pub enum RoleGroup {
    Villager,
    Werewolf,
    Hunter,
}

/// The group that handles a role.
pub open spec fn role_group_of(r: Identity) -> RoleGroup {
    match r {
        Identity::Villager => RoleGroup::Villager,
        Identity::Werewolf => RoleGroup::Werewolf,
        _ => RoleGroup::Hunter,
    }
}

/// The group that handles the role `r`; a player always holds a real role
/// by the time a group is asked for.
pub fn role_map(r: Identity) -> (g: RoleGroup)
    requires
        r != Identity::Raw,
    ensures
        g == role_group_of(r),
{
    match r {
        Identity::Villager => RoleGroup::Villager,
        Identity::Werewolf => RoleGroup::Werewolf,
        _ => RoleGroup::Hunter,
    }
}

/// How a player is named in messages: the nickname, then the seat number.
pub open spec fn display_name(username: Seq<char>, id: nat) -> Seq<char> {
    username + "（"@ + decimal(id) + " 号）"@
}

/// Builds the name under which a player appears in messages.
pub fn make_display_name(username: &str, id: usize) -> (s: String)
    ensures
        s@ == display_name(username@, id as nat),
{
    let mut s = String::from_str(username);
    s.append("（");
    let d = usize_to_string(id);
    s.append(d.as_str());
    s.append(" 号）");
    s
}

/// One player of the game as the judger keeps it.
pub struct Seat {
    pub id: usize,
    pub username: String,
    pub role: Identity,
    pub status: LifeStatus,
}

impl Seat {
    /// The name under which this player appears in messages.
    pub fn name(&self) -> (s: String)
        ensures
            s@ == display_name(self.username@, self.id as nat),
    {
        make_display_name(self.username.as_str(), self.id)
    }

    /// A copy of this seat.
    pub fn copy(&self) -> (s: Seat)
        ensures
            s == *self,
    {
        Seat { id: self.id, username: self.username.clone(), role: self.role, status: self.status }
    }
}

/// One step of dealing with a player's death.
#[derive(PartialEq, Eq, Structural, Clone, Copy, Debug)]
pub enum DeathStep {
    /// Tell the other players who died.
    AnnounceDeath,
    /// Open the dying player's turn.
    OpenTurn,
    /// Ask the dying player for last words; the player is dead from then on.
    AskLastWords,
    /// Write the last words to the log and pass them to the other players.
    ShareLastWords,
    /// The dying player picks a living player to shoot.
    Shoot,
}

/// The steps of dealing with a death, in order, for each group.
pub open spec fn death_steps_spec(g: RoleGroup) -> Seq<DeathStep> {
    match g {
        RoleGroup::Hunter => seq![DeathStep::AskLastWords, DeathStep::ShareLastWords, DeathStep::Shoot],
        _ => seq![DeathStep::AnnounceDeath, DeathStep::OpenTurn, DeathStep::AskLastWords, DeathStep::ShareLastWords],
    }
}

/// Every dying player gives last words, which are shared, and only a hunter
/// shoots: a dying hunter gives last words, has them shared and then shoots,
/// while a dying werewolf or villager is dealt with alike, the death
/// announced, the turn opened and last words asked for and shared.
pub proof fn lemma_only_hunters_shoot(g: RoleGroup)
    ensures
        death_steps_spec(g).contains(DeathStep::Shoot) <==> g == RoleGroup::Hunter,
        death_steps_spec(g).contains(DeathStep::AskLastWords),
        death_steps_spec(g).contains(DeathStep::ShareLastWords),
        g == RoleGroup::Hunter ==> death_steps_spec(g)
            == seq![DeathStep::AskLastWords, DeathStep::ShareLastWords, DeathStep::Shoot],
        g != RoleGroup::Hunter ==> death_steps_spec(g)
            == seq![DeathStep::AnnounceDeath, DeathStep::OpenTurn, DeathStep::AskLastWords, DeathStep::ShareLastWords],
        death_steps_spec(RoleGroup::Werewolf) == death_steps_spec(RoleGroup::Villager),
{
    let s = death_steps_spec(g);
    if g == RoleGroup::Hunter {
        assert(s[2] == DeathStep::Shoot);
        assert(s[0] == DeathStep::AskLastWords);
        assert(s[1] == DeathStep::ShareLastWords);
    } else {
        assert(s[2] == DeathStep::AskLastWords);
        assert(s[3] == DeathStep::ShareLastWords);
        assert forall|i: int| 0 <= i < s.len() implies s[i] != DeathStep::Shoot by {}
    }
}

impl RoleGroup {
    /// The steps of dealing with the death of one of this group's players.
    /// Everyone has last words; a hunter then shoots a living player.
    pub fn death_steps(&self) -> (res: Vec<DeathStep>)
        ensures
            res@ == death_steps_spec(*self),
    {
        let mut v = Vec::new();
        match self {
            RoleGroup::Hunter => {
                v.push(DeathStep::AskLastWords);
                v.push(DeathStep::ShareLastWords);
                v.push(DeathStep::Shoot);
            },
            _ => {
                v.push(DeathStep::AnnounceDeath);
                v.push(DeathStep::OpenTurn);
                v.push(DeathStep::AskLastWords);
                v.push(DeathStep::ShareLastWords);
            },
        }
        assert(v@ =~= death_steps_spec(*self));
        v
    }

    /// Whether this group acts at night: only the werewolves do.
    pub fn acts_at_night(&self) -> (res: bool)
        ensures
            res == (*self == RoleGroup::Werewolf),
    {
        match self {
            RoleGroup::Werewolf => true,
            _ => false,
        }
    }
}

/// The notice that a player died.
pub open spec fn death_notice_spec(name: Seq<char>) -> Seq<char> {
    name + " 死了。"@
}

/// The line that carries a player's last words.
pub open spec fn last_words_spec(name: Seq<char>, words: Seq<char>) -> Seq<char> {
    name + "的遗言: "@ + words
}

/// Tells the other players that the named player died.
pub fn death_notice(name: &str) -> (s: String)
    ensures
        s@ == death_notice_spec(name@),
{
    let mut s = String::from_str(name);
    s.append(" 死了。");
    s
}

/// What the dying player is asked.
pub fn last_words_request() -> (s: String)
    ensures
        s@ == "你死了，请发表遗言。"@,
{
    String::from_str("你死了，请发表遗言。")
}

/// The line that carries the named player's last words.
pub fn last_words(name: &str, words: &str) -> (s: String)
    ensures
        s@ == last_words_spec(name@, words@),
{
    let mut s = String::from_str(name);
    s.append("的遗言: ");
    s.append(words);
    s
}

} // verus!
