//! The player (client) side of the game: the player's state and how the
//! player reacts to each message of the judger.

pub mod comm;
pub mod hunter;
pub mod villager;
pub mod werewolf;

use vstd::prelude::*;
use vstd::string::*;
use crate::player::comm::{Message, MessageModel};
use crate::text::{decimal, u64_to_string};
use crate::judger::roles::{Identity, identity_name};

verus! {

/// The role a player holds; `Raw` before the judger hands roles out.
#[derive(PartialEq, Eq, Structural, Clone, Copy, Debug)]
pub enum Role {
    Raw,
    Villager,
    Werewolf,
    Hunter,
}

/// The role named by the judger's message.
pub open spec fn map_role_spec(s: Seq<char>) -> Option<Role> {
    if s == "平民"@ {
        Some(Role::Villager)
    } else if s == "狼人"@ {
        Some(Role::Werewolf)
    } else if s == "猎人"@ {
        Some(Role::Hunter)
    } else {
        None
    }
}

/// What a player is told of the role just received.
pub open spec fn born_spec(r: Role, id: nat, username: Seq<char>) -> Option<Seq<char>> {
    let who = username + "（"@ + decimal(id) + " 号）"@;
    match r {
        Role::Villager => Some(who + "你的角色是 平民。"@),
        Role::Werewolf => Some(who + "你的角色是 狼人。"@),
        Role::Hunter => Some(who + "你的角色是 猎人"@),
        Role::Raw => None,
    }
}

/// The player: the seat number the judger gave, the nickname, the role.
pub struct Player {
    pub id: u64,
    pub username: String,
    pub role: Role,
}

/// Where a player is in the game, for reading the judger's messages.
#[derive(PartialEq, Eq, Structural, Clone, Copy, Debug)]
pub enum Stage {
    /// The day's talk: the player speaks when the turn opens.
    Chat,
    /// A vote: the player votes when the turn opens.
    Vote,
    /// Deaths are dealt with: the player's turn opening means the player died.
    DeathCheck,
    /// The player is dead and watches until the game ends.
    Watch,
    /// The judger says whether the game goes on.
    OverCheck,
}

/// What a player does with one message.
#[derive(Debug)]
pub enum Reaction {
    /// Write something and send it.
    Speak,
    /// Pick a candidate.
    Vote,
    /// Die: give last words.
    Die,
    /// Show the text and read on.
    Show(String),
    /// This part is over.
    Done,
    /// Nothing to do; read on.
    Ignore,
    /// Show the text; the game is over for this player.
    Finish(String),
    /// The message does not fit here.
    Fail,
}

/// The mathematical value of a [`Reaction`].
pub enum ReactionModel {
    Speak,
    Vote,
    Die,
    Show(Seq<char>),
    Done,
    Ignore,
    Finish(Seq<char>),
    Fail,
}

impl View for Reaction {
    type V = ReactionModel;

    open spec fn view(&self) -> ReactionModel {
        match self {
            Reaction::Speak => ReactionModel::Speak,
            Reaction::Vote => ReactionModel::Vote,
            Reaction::Die => ReactionModel::Die,
            Reaction::Show(s) => ReactionModel::Show(s@),
            Reaction::Done => ReactionModel::Done,
            Reaction::Ignore => ReactionModel::Ignore,
            Reaction::Finish(s) => ReactionModel::Finish(s@),
            Reaction::Fail => ReactionModel::Fail,
        }
    }
}

/// Whether a text announces the end of the game.
pub open spec fn is_result_text(s: Seq<char>) -> bool {
    s == "好人胜利"@ || s == "狼人胜利"@
}

/// How a player reacts to a message at a stage of the game. While talking,
/// voting or dealing with deaths, an opened turn means speak, vote or die, a
/// text is shown and a closed turn ends the stage. A dead player shows texts
/// and stops at the result. After deaths are dealt with, a closed turn means
/// the game goes on and a text means it is over.
pub open spec fn react_spec(stage: Stage, m: MessageModel) -> ReactionModel {
    match stage {
        Stage::Watch => match m {
            MessageModel::Text(s) => if is_result_text(s) { ReactionModel::Finish(s) } else { ReactionModel::Show(s) },
            _ => ReactionModel::Ignore,
        },
        Stage::OverCheck => match m {
            MessageModel::End => ReactionModel::Done,
            MessageModel::Text(s) => ReactionModel::Finish(s),
            MessageModel::Json(s) => ReactionModel::Finish(s),
            _ => ReactionModel::Fail,
        },
        _ => match m {
            MessageModel::Begin => match stage {
                Stage::Chat => ReactionModel::Speak,
                Stage::Vote => ReactionModel::Vote,
                _ => ReactionModel::Die,
            },
            MessageModel::Text(s) => ReactionModel::Show(s),
            MessageModel::End => ReactionModel::Done,
            _ => ReactionModel::Fail,
        },
    }
}

/// How a player reacts to a message at a stage of the game.
pub fn react(stage: Stage, msg: Message) -> (r: Reaction)
    ensures
        r@ == react_spec(stage, msg@),
{
    match stage {
        Stage::Watch => match msg {
            Message::Text(s) => {
                if s == String::from_str("好人胜利") || s == String::from_str("狼人胜利") {
                    Reaction::Finish(s)
                } else {
                    Reaction::Show(s)
                }
            },
            _ => Reaction::Ignore,
        },
        Stage::OverCheck => match msg {
            Message::End => Reaction::Done,
            Message::Text(s) => Reaction::Finish(s),
            Message::Json(s) => Reaction::Finish(s),
            _ => Reaction::Fail,
        },
        _ => match msg {
            Message::Begin => match stage {
                Stage::Chat => Reaction::Speak,
                Stage::Vote => Reaction::Vote,
                _ => Reaction::Die,
            },
            Message::Text(s) => Reaction::Show(s),
            Message::End => Reaction::Done,
            _ => Reaction::Fail,
        },
    }
}

impl Role {
    /// Whether the role votes at night: only werewolves do.
    pub fn votes_at_night(&self) -> (b: bool)
        ensures
            b == (*self == Role::Werewolf),
    {
        match self {
            Role::Werewolf => true,
            _ => false,
        }
    }

    /// Whether the role shoots someone when it dies: only hunters do.
    pub fn shoots_on_death(&self) -> (b: bool)
        ensures
            b == (*self == Role::Hunter),
    {
        match self {
            Role::Hunter => true,
            _ => false,
        }
    }
}

impl Player {
    /// A player with the seat number and nickname given, without a role yet.
    pub fn new(id: u64, username: String) -> (p: Player)
        ensures
            p.id == id,
            p.username == username,
            p.role == Role::Raw,
    {
        Player { id, username, role: Role::Raw }
    }

    /// The role named by the judger's message; `None` for any other text.
    pub fn map_role(s: &str) -> (r: Option<Role>)
        ensures
            r == map_role_spec(s@),
    {
        let owned = String::from_str(s);
        if owned == String::from_str("平民") {
            Some(Role::Villager)
        } else if owned == String::from_str("狼人") {
            Some(Role::Werewolf)
        } else if owned == String::from_str("猎人") {
            Some(Role::Hunter)
        } else {
            None
        }
    }

    /// What the player is told of the role held; nothing before roles are
    /// handed out.
    pub fn born(&self) -> (s: Option<String>)
        ensures
            s matches Some(t) ==> born_spec(self.role, self.id as nat, self.username@) == Some(t@),
            s is None ==> born_spec(self.role, self.id as nat, self.username@) is None,
    {
        match self.role {
            Role::Villager => Some(villager::Villager::new().born(self.id, self.username.as_str())),
            Role::Werewolf => Some(werewolf::Werewolf::new().born(self.id, self.username.as_str())),
            Role::Hunter => Some(hunter::Hunter::new().born(self.id, self.username.as_str())),
            Role::Raw => None,
        }
    }

    /// Takes the role the judger named and returns what the player is told
    /// of it; `None`, with the player unchanged, where the name is no role.
    pub fn get_role(&mut self, role_name: &str) -> (s: Option<String>)
        ensures
            map_role_spec(role_name@) is None ==> s is None && *final(self) == *old(self),
            map_role_spec(role_name@) matches Some(r) ==> final(self).role == r
                && final(self).id == old(self).id && final(self).username == old(self).username
                && (s matches Some(t) && born_spec(r, old(self).id as nat, old(self).username@) == Some(t@)),
    {
        match Player::map_role(role_name) {
            Some(r) => {
                self.role = r;
                self.born()
            },
            None => None,
        }
    }
}

/// How a player's name appears with the seat number.
pub(crate) fn who(username: &str, id: u64) -> (s: String)
    ensures
        s@ == username@ + "（"@ + decimal(id as nat) + " 号）"@,
{
    let mut s = String::from_str(username);
    s.append("（");
    let d = u64_to_string(id);
    s.append(d.as_str());
    s.append(" 号）");
    s
}

/// How many relay lines a player waits for after joining as the `id`-th of
/// `player_num` players: one for each player who joins later.
pub fn relays_to_await(id: u64, player_num: u64) -> (n: u64)
    requires
        id <= player_num,
    ensures
        n == player_num - id,
{
    player_num - id
}

/// The player-side role for a role the judger hands out.
pub open spec fn role_of_identity(i: Identity) -> Role {
    match i {
        Identity::Villager => Role::Villager,
        Identity::Werewolf => Role::Werewolf,
        Identity::Hunter => Role::Hunter,
        Identity::Raw => Role::Raw,
    }
}

/// A player reads the name of a role handed out by the judger as that very
/// role.
pub proof fn lemma_player_learns_own_role(i: Identity)
    requires
        i != Identity::Raw,
    ensures
        map_role_spec(identity_name(i)) == Some(role_of_identity(i)),
{
    reveal_strlit("平民");
    reveal_strlit("狼人");
    reveal_strlit("猎人");
    assert("平民"@ != "狼人"@) by { assert("平民"@[0] != "狼人"@[0]); }
    assert("平民"@ != "猎人"@) by { assert("平民"@[0] != "猎人"@[0]); }
    assert("狼人"@ != "猎人"@) by { assert("狼人"@[0] != "猎人"@[0]); }
}

/// The text a player is told when handed a role names that very role, as
/// the judger named it, right after the player's name and seat and the words
/// "你的角色是 "; a villager's or werewolf's text ends with a full stop, a
/// hunter's does not.
pub proof fn lemma_told_role_is_named(name: Seq<char>, id: nat, username: Seq<char>)
    requires
        map_role_spec(name) is Some,
    ensures
        born_spec(map_role_spec(name)->0, id, username) is Some,
        name == "猎人"@ ==> born_spec(map_role_spec(name)->0, id, username)
            == Some(username + "（"@ + decimal(id) + " 号）"@ + "你的角色是 "@ + name),
        name != "猎人"@ ==> born_spec(map_role_spec(name)->0, id, username)
            == Some(username + "（"@ + decimal(id) + " 号）"@ + "你的角色是 "@ + name + "。"@),
{
    reveal_strlit("平民");
    reveal_strlit("狼人");
    reveal_strlit("猎人");
    reveal_strlit("。");
    reveal_strlit("你的角色是 ");
    reveal_strlit("你的角色是 平民。");
    reveal_strlit("你的角色是 狼人。");
    reveal_strlit("你的角色是 猎人");
    let who = username + "（"@ + decimal(id) + " 号）"@;
    assert("你的角色是 平民。"@ =~= "你的角色是 "@ + "平民"@ + "。"@);
    assert("你的角色是 狼人。"@ =~= "你的角色是 "@ + "狼人"@ + "。"@);
    assert("你的角色是 猎人"@ =~= "你的角色是 "@ + "猎人"@);
    assert(who + ("你的角色是 "@ + name + "。"@) =~= who + "你的角色是 "@ + name + "。"@);
    assert(who + ("你的角色是 "@ + name) =~= who + "你的角色是 "@ + name);
    assert("平民"@ != "猎人"@) by { assert("平民"@[0] != "猎人"@[0]); }
    assert("狼人"@ != "猎人"@) by { assert("狼人"@[0] != "猎人"@[0]); }
}

/// Players with different roles are told different texts.
pub proof fn lemma_roles_told_apart(r1: Role, r2: Role, id: nat, username: Seq<char>)
    requires
        r1 != r2,
        born_spec(r1, id, username) is Some,
        born_spec(r2, id, username) is Some,
    ensures
        born_spec(r1, id, username) != born_spec(r2, id, username),
{
    reveal_strlit("你的角色是 平民。");
    reveal_strlit("你的角色是 狼人。");
    reveal_strlit("你的角色是 猎人");
    let who = username + "（"@ + decimal(id) + " 号）"@;
    let t1 = born_spec(r1, id, username)->0;
    let t2 = born_spec(r2, id, username)->0;
    if t1 == t2 {
        let k: int = who.len() as int + 6;
        assert(t1[k] == t2[k]);
        if r1 == Role::Hunter || r2 == Role::Hunter {
            assert(t1.len() != t2.len());
        } else {
            assert("你的角色是 平民。"@[6] != "你的角色是 狼人。"@[6]);
        }
    }
}

/// A text from the judger is never dropped: while talking, voting or
/// dealing with deaths it is shown as it is and reading goes on; when the
/// judger says whether the game goes on, it ends the game with the text
/// shown; while watching, it is shown, and it ends the game just when it
/// names the winners.
pub proof fn lemma_texts_are_shown(stage: Stage, s: Seq<char>)
    ensures
        (stage == Stage::Chat || stage == Stage::Vote || stage == Stage::DeathCheck)
            ==> react_spec(stage, MessageModel::Text(s)) == ReactionModel::Show(s),
        stage == Stage::OverCheck ==> react_spec(stage, MessageModel::Text(s)) == ReactionModel::Finish(s),
        stage == Stage::Watch && (s == "好人胜利"@ || s == "狼人胜利"@)
            ==> react_spec(stage, MessageModel::Text(s)) == ReactionModel::Finish(s),
        stage == Stage::Watch && !(s == "好人胜利"@ || s == "狼人胜利"@)
            ==> react_spec(stage, MessageModel::Text(s)) == ReactionModel::Show(s),
{
}

/// What the player does with the other messages: an opened turn means
/// speaking in the talk, voting in a vote and dying while deaths are dealt
/// with; a closed turn ends that part. A dead player watching ignores all
/// but texts. When the judger says whether the game goes on, a closed turn
/// means it goes on, a JSON text ends it, and anything else does not fit;
/// a number or JSON text does not fit in the other stages.
pub proof fn lemma_turn_messages(s: Seq<char>, n: nat)
    ensures
        react_spec(Stage::Chat, MessageModel::Begin) == ReactionModel::Speak,
        react_spec(Stage::Vote, MessageModel::Begin) == ReactionModel::Vote,
        react_spec(Stage::DeathCheck, MessageModel::Begin) == ReactionModel::Die,
        react_spec(Stage::Chat, MessageModel::End) == ReactionModel::Done,
        react_spec(Stage::Vote, MessageModel::End) == ReactionModel::Done,
        react_spec(Stage::DeathCheck, MessageModel::End) == ReactionModel::Done,
        react_spec(Stage::OverCheck, MessageModel::End) == ReactionModel::Done,
        react_spec(Stage::OverCheck, MessageModel::Json(s)) == ReactionModel::Finish(s),
        react_spec(Stage::OverCheck, MessageModel::Begin) == ReactionModel::Fail,
        react_spec(Stage::OverCheck, MessageModel::Number(n)) == ReactionModel::Fail,
        react_spec(Stage::Watch, MessageModel::Begin) == ReactionModel::Ignore,
        react_spec(Stage::Watch, MessageModel::End) == ReactionModel::Ignore,
        react_spec(Stage::Watch, MessageModel::Json(s)) == ReactionModel::Ignore,
        react_spec(Stage::Watch, MessageModel::Number(n)) == ReactionModel::Ignore,
        forall|st: Stage| (st == Stage::Chat || st == Stage::Vote || st == Stage::DeathCheck) ==> {
            &&& react_spec(st, MessageModel::Json(s)) == ReactionModel::Fail
            &&& react_spec(st, MessageModel::Number(n)) == ReactionModel::Fail
        },
{
}

} // verus!
