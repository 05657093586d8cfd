//! A player played by a large language model. The model is reached over
//! the network elsewhere; here is the conversation it is shown and what is
//! made of its replies.

use vstd::prelude::*;
use vstd::string::*;
use crate::judger::roles::{Identity, LifeStatus, display_name, make_display_name};
use crate::judger::roles::responder::widget::{VoteEntry, entries_view, ballot_detail_spec};
use crate::text::{is_digit, parse_usize_spec, parse_usize, push_char};

verus! {

/// One message of the conversation with the model: who speaks (`system` or
/// `user`) and what is said.
pub struct Prompt {
    pub role: String,
    pub content: String,
}

/// The model's player: the conversation so far, the seat, life status and
/// role, the last reply, the nickname, and the tokens used so far (prompt,
/// completion).
pub struct Doubao {
    pub prompts: Vec<Prompt>,
    pub id: usize,
    pub status: LifeStatus,
    pub role: Identity,
    pub res: String,
    pub username: String,
    pub tokens: (u64, u64),
}

/// The views of the conversation: (speaker, text) pairs.
pub open spec fn prompts_view(p: Seq<Prompt>) -> Seq<(Seq<char>, Seq<char>)> {
    p.map_values(|m: Prompt| (m.role@, m.content@))
}

/// The rules of the game as the model is told them at the start.
pub const INIT_PROMPT: &'static str = "
狼人杀是一款多人参与的社交推理游戏，通常在夜晚和白天交替进行，玩家通过沟通、推理和策略来达成各自的胜利条件。

游戏通常在所有狼人被驱逐或狼人与村民数量相等时结束。每个角色都有其独特的策略和玩法，玩家需要通过观察、沟通和推理来找出狼人并保护自己的阵营。
以下是狼人、村民和猎人这三个角色的基本规则：

1. 狼人：
   - 狼人是夜间行动的角色，他们的目标是消灭所有村民或者达到狼人数量与剩余村民数量相等的状态。
   - 每个夜晚，狼人们会秘密地聚集并选择一名玩家进行攻击，如果被选中的是村民，则该村民会被狼人杀害。

2. 村民：
   - 村民是游戏的普通角色，他们没有特殊能力，但可以通过白天的讨论和投票来推断狼人的身份。
   - 村民的目标是找出并投票驱逐狼人，以保护自己不被狼人杀害。

3. 猎人：
   - 猎人是具有特殊能力的村民。如果猎人被狼人杀害或被村民投票驱逐，他们可以在临死前选择一名玩家作为自己的“遗言”，该玩家随即被猎人“射杀”。
   - 猎人也可以选择不使用这个能力，直到游戏结束。

现在，你要去参加谭炜谭狼人杀比赛，谭炜谭狼人杀只有以上三个角色。接下来我会告诉你一些信息，这些消息有的会告诉你你的角色，有的会告诉你其它人的发言，有的会告诉你一次投票的结果，还有一些会要求你进行投票或者发言。在轮流发言时，如果我要求你“输出你被要求回答的”，则输出你的发言内容，若是死亡后被要求回答，则输出你的遗言内容；当你被要求投票时，直接输出相应的编号，不要输出多余内容。
现在，游戏开始。";

/// What the model is told when its turn to talk comes.
pub const CHAT_PROMPT: &'static str = "现在轮到你发言。";

/// How the model is told to vote.
pub const VOTE_PROMPT: &'static str = "请在之后的候选名单中选择你想要选择的玩家，并直接输出编号。
比如，如果你想选择“舔一舔（1 号）”，请直接说“1”，而不是“我想选择 1 号”之类的，
如果你想选择“twt（2 号）”，直接说“2”，而不是“好的，我选择 2 号”之类的";

/// How the model is asked for a nickname.
pub const NAME_PROMPT: &'static str = "现在先给自己起一个好听的昵称，注意，你需要直接输出昵称。比如，如果你给自己起的昵称是“舔一舔”，不要输出“我叫舔一舔”“我的昵称是舔一舔”之类的，直接输出“舔一舔”，不要包含其它内容";

/// The digits of a text, in order, with everything else left out.
pub open spec fn digits_of(s: Seq<char>) -> Seq<char> {
    s.filter(|c: char| is_digit(c))
}

/// Names joined with single spaces.
pub open spec fn join_spaced(names: Seq<Seq<char>>) -> Seq<char>
    decreases names.len(),
{
    if names.len() == 0 {
        Seq::empty()
    } else if names.len() == 1 {
        names[0]
    } else {
        join_spaced(names.drop_last()) + " "@ + names.last()
    }
}

/// The candidate list puts exactly one space between each two names: a
/// single name stays as it is, no names give an empty text, one more name
/// adds a space and that name, and joining two runs of names is joining
/// each and putting a space between them.
pub proof fn lemma_join_spaced(names: Seq<Seq<char>>, more: Seq<Seq<char>>, x: Seq<char>)
    ensures
        join_spaced(Seq::empty()) == Seq::<char>::empty(),
        join_spaced(seq![x]) == x,
        names.len() > 0 ==> join_spaced(names.push(x)) == join_spaced(names) + " "@ + x,
        names.len() > 0 && more.len() > 0 ==> join_spaced(names + more) == join_spaced(names) + " "@ + join_spaced(more),
    decreases more.len(),
{
    assert(names.push(x).drop_last() =~= names);
    if names.len() > 0 && more.len() > 1 {
        let m = more.drop_last();
        lemma_join_spaced(names, m, x);
        assert((names + more).drop_last() =~= names + m);
        assert(join_spaced(names + more) == join_spaced(names + m) + " "@ + more.last());
        assert(join_spaced(more) == join_spaced(m) + " "@ + more.last());
        assert(join_spaced(names + more) =~= join_spaced(names) + " "@ + join_spaced(more));
    } else if names.len() > 0 && more.len() == 1 {
        assert(names + more =~= names.push(more[0]));
        assert(names.push(more[0]).drop_last() =~= names);
        assert(join_spaced(more) == more[0]);
    }
}

/// The name shown for the first candidate with id `tar`, or `ERROR` when no
/// candidate has it.
pub open spec fn target_name(list: Seq<(usize, Seq<char>)>, tar: usize) -> Seq<char> {
    if exists|i: int| 0 <= i < list.len() && list[i].0 == tar {
        list[choose|i: int| 0 <= i < list.len() && list[i].0 == tar
            && forall|j: int| 0 <= j < i ==> list[j].0 != tar].1
    } else {
        "ERROR"@
    }
}

/// What the model's web API answers in `body`, as read with
/// `serde_json::from_str` and the fields `choices[0].message.content`,
/// `usage.prompt_tokens` and `usage.completion_tokens`; `None` where the body
/// is no JSON or lacks one of these fields or they have another type.
pub uninterp spec fn model_answer_of(body: Seq<char>) -> Option<(Seq<char>, u64, u64)>;

/// The JSON request body that `serde_json` writes for a chat request with
/// the given model and conversation: an object with `model` and
/// `messages`, each message an object with `role` and `content`.
pub uninterp spec fn chat_request_of(model: Seq<char>, messages: Seq<(Seq<char>, Seq<char>)>) -> Seq<char>;

/// Reads the model's answer with `serde_json::from_str` into a
/// `serde_json::Value` and takes out the reply text and the prompt and
/// completion token counts. The result is what the body holds at those
/// fields; `from_str` returns an error rather than panicking on bad input.
#[verifier::external_body]
fn read_model_answer(body: &str) -> (res: Option<(String, u64, u64)>)
    ensures
        res matches Some(r) ==> model_answer_of(body@) == Some((r.0@, r.1, r.2)),
        res is None ==> model_answer_of(body@) is None,
{
    let v: serde_json::Value = serde_json::from_str(body).ok()?;
    Some((
        v["choices"][0]["message"]["content"].as_str()?.to_string(),
        v["usage"]["prompt_tokens"].as_u64()?,
        v["usage"]["completion_tokens"].as_u64()?,
    ))
}

/// Writes the chat request body with `serde_json`: a `Value` object with
/// the model and the messages, turned into text by `Value::to_string`.
/// The text depends on the model and the conversation alone.
#[verifier::external_body]
fn chat_request_body(model: &str, prompts: &Vec<Prompt>) -> (s: String)
    ensures
        s@ == chat_request_of(model@, prompts_view(prompts@)),
{
    let messages = prompts.iter().map(|p| serde_json::Value::Object(serde_json::Map::from_iter([
        ("role".to_string(), serde_json::Value::from(p.role.as_str())),
        ("content".to_string(), serde_json::Value::from(p.content.as_str())),
    ]))).collect();
    serde_json::Value::Object(serde_json::Map::from_iter([
        ("model".to_string(), serde_json::Value::from(model)),
        ("messages".to_string(), serde_json::Value::Array(messages)),
    ])).to_string()
}

fn make_prompt(role: &str, content: &str) -> (p: Prompt)
    ensures
        p.role@ == role@,
        p.content@ == content@,
{
    Prompt { role: String::from_str(role), content: String::from_str(content) }
}

impl Doubao {
    /// A model player that has only been told the rules.
    pub fn new() -> (d: Doubao)
        ensures
            prompts_view(d.prompts@) == seq![("system"@, INIT_PROMPT@)],
            d.id == 0,
            d.status == LifeStatus::Alive,
            d.role == Identity::Raw,
            d.res@.len() == 0,
            d.username@.len() == 0,
            d.tokens == (0u64, 0u64),
    {
        let mut prompts = Vec::new();
        prompts.push(make_prompt("system", INIT_PROMPT));
        let d = Doubao {
            prompts,
            id: 0,
            status: LifeStatus::Alive,
            role: Identity::Raw,
            res: String::new(),
            username: String::new(),
            tokens: (0, 0),
        };
        assert(prompts_view(d.prompts@) =~= seq![("system"@, INIT_PROMPT@)]);
        d
    }

    /// Tells the model something, as the system.
    pub fn push(&mut self, msg: &str)
        ensures
            prompts_view(final(self).prompts@) == prompts_view(old(self).prompts@).push(("system"@, msg@)),
            final(self).id == old(self).id,
            final(self).status == old(self).status,
            final(self).role == old(self).role,
            final(self).res == old(self).res,
            final(self).username == old(self).username,
            final(self).tokens == old(self).tokens,
    {
        let p = make_prompt("system", msg);
        self.prompts.push(p);
        assert(prompts_view(self.prompts@) =~= prompts_view(old(self).prompts@).push(("system"@, msg@)));
    }

    /// Asks the model something, as the user.
    pub fn ask(&mut self, msg: &str)
        ensures
            prompts_view(final(self).prompts@) == prompts_view(old(self).prompts@).push(("user"@, msg@)),
            final(self).id == old(self).id,
            final(self).status == old(self).status,
            final(self).role == old(self).role,
            final(self).res == old(self).res,
            final(self).username == old(self).username,
            final(self).tokens == old(self).tokens,
    {
        let p = make_prompt("user", msg);
        self.prompts.push(p);
        assert(prompts_view(self.prompts@) =~= prompts_view(old(self).prompts@).push(("user"@, msg@)));
    }

    /// Takes in a reply of the model and the tokens it cost.
    pub fn take_reply(&mut self, content: String, prompt_tokens: u64, completion_tokens: u64)
        requires
            old(self).tokens.0 + prompt_tokens <= u64::MAX,
            old(self).tokens.1 + completion_tokens <= u64::MAX,
        ensures
            final(self).res == content,
            final(self).tokens == ((old(self).tokens.0 + prompt_tokens) as u64, (old(self).tokens.1 + completion_tokens) as u64),
            final(self).prompts == old(self).prompts,
            final(self).id == old(self).id,
            final(self).status == old(self).status,
            final(self).role == old(self).role,
            final(self).username == old(self).username,
    {
        self.res = content;
        self.tokens = (self.tokens.0 + prompt_tokens, self.tokens.1 + completion_tokens);
    }

    /// The body of the chat request that sends the conversation so far to
    /// the given model.
    pub fn request_body(&self, model: &str) -> (s: String)
        ensures
            s@ == chat_request_of(model@, prompts_view(self.prompts@)),
    {
        chat_request_body(model, &self.prompts)
    }

    /// Takes in the model's answer as the web API sent it: the reply text
    /// becomes the last reply and its token counts are added up. Returns
    /// `false`, with nothing changed, where the answer cannot be read or the
    /// token totals would overflow.
    pub fn take_answer(&mut self, body: &str) -> (ok: bool)
        ensures
            ok <==> (model_answer_of(body@) matches Some(a)
                && old(self).tokens.0 + a.1 <= u64::MAX
                && old(self).tokens.1 + a.2 <= u64::MAX),
            ok ==> (model_answer_of(body@) matches Some(a)
                && final(self).res@ == a.0
                && final(self).tokens == ((old(self).tokens.0 + a.1) as u64, (old(self).tokens.1 + a.2) as u64)
                && final(self).prompts == old(self).prompts
                && final(self).id == old(self).id
                && final(self).status == old(self).status
                && final(self).role == old(self).role
                && final(self).username == old(self).username),
            !ok ==> *final(self) == *old(self),
    {
        match read_model_answer(body) {
            Some((content, inp, out)) => {
                match (self.tokens.0.checked_add(inp), self.tokens.1.checked_add(out)) {
                    (Some(_), Some(_)) => {
                        self.take_reply(content, inp, out);
                        true
                    },
                    _ => false,
                }
            },
            None => false,
        }
    }

    /// Asks the model to talk: the reply is what it says.
    pub fn prepare_chat(&mut self)
        ensures
            prompts_view(final(self).prompts@) == prompts_view(old(self).prompts@).push(("user"@, CHAT_PROMPT@)),
            final(self).id == old(self).id,
            final(self).status == old(self).status,
            final(self).role == old(self).role,
            final(self).res == old(self).res,
            final(self).username == old(self).username,
            final(self).tokens == old(self).tokens,
    {
        self.ask(CHAT_PROMPT);
    }

    /// The model's last reply.
    pub fn reply(&self) -> (s: String)
        ensures
            s == self.res,
    {
        self.res.clone()
    }

    /// Asks the model to vote: the vote's question, how to answer, then the
    /// list of candidates' names.
    pub fn prepare_vote(&mut self, msg: &str, list: &Vec<VoteEntry>)
        ensures
            prompts_view(final(self).prompts@) == prompts_view(old(self).prompts@)
                .push(("system"@, msg@))
                .push(("system"@, VOTE_PROMPT@))
                .push(("user"@, "候选名单 "@ + join_spaced(entries_view(list@).map_values(|e: (usize, Seq<char>)| e.1)))),
            final(self).id == old(self).id,
            final(self).status == old(self).status,
            final(self).role == old(self).role,
            final(self).res == old(self).res,
            final(self).username == old(self).username,
            final(self).tokens == old(self).tokens,
    {
        let ghost names = entries_view(list@).map_values(|e: (usize, Seq<char>)| e.1);
        let mut text = String::from_str("候选名单 ");
        let ghost head = text@;
        let mut i: usize = 0;
        while i < list.len()
            invariant
                i <= list.len(),
                names == entries_view(list@).map_values(|e: (usize, Seq<char>)| e.1),
                text@ == head + join_spaced(names.take(i as int)),
            decreases list.len() - i,
        {
            assert(names.take(i + 1).drop_last() =~= names.take(i as int));
            assert(names[i as int] == list@[i as int].1@);
            if i > 0 {
                text.append(" ");
            } else {
                assert(join_spaced(names.take(0)) =~= Seq::<char>::empty());
                assert(join_spaced(names.take(1)) == names[0]);
            }
            text.append(list[i].1.as_str());
            assert(text@ =~= head + join_spaced(names.take(i + 1)));
            i = i + 1;
        }
        assert(names.take(i as int) =~= names);
        self.push(msg);
        self.push(VOTE_PROMPT);
        self.ask(text.as_str());
    }

    /// What the model's reply to a vote comes to: the digits of the reply
    /// read as the id voted for, and the detail line naming the candidate
    /// with that id (`ERROR` when none has it). `None` where the digits do
    /// not make a number.
    pub fn vote_result(&self, list: &Vec<VoteEntry>) -> (res: Option<(String, usize)>)
        ensures
            res is None ==> parse_usize_spec(digits_of(self.res@)) is None,
            res matches Some(r) ==> parse_usize_spec(digits_of(self.res@)) == Some(r.1 as nat)
                && r.0@ == ballot_detail_spec(display_name(self.username@, self.id as nat),
                    target_name(entries_view(list@), r.1)),
    {
        let digits = only_digits(self.res.as_str());
        let tar = match parse_usize(digits.as_str()) {
            Some(t) => t,
            None => { return None; },
        };
        let tar_name = target_name_of(list, tar);
        let mut d = self.name();
        d.append(" -> ");
        d.append(tar_name.as_str());
        Some((d, tar))
    }

    /// Asks the model for a nickname: the reply is the nickname.
    pub fn prepare_name(&mut self)
        ensures
            prompts_view(final(self).prompts@) == prompts_view(old(self).prompts@).push(("user"@, NAME_PROMPT@)),
            final(self).id == old(self).id,
            final(self).status == old(self).status,
            final(self).role == old(self).role,
            final(self).res == old(self).res,
            final(self).username == old(self).username,
            final(self).tokens == old(self).tokens,
    {
        self.ask(NAME_PROMPT);
    }

    /// The model takes its last reply as nickname.
    pub fn adopt_name(&mut self)
        ensures
            final(self).username == old(self).res,
            final(self).prompts == old(self).prompts,
            final(self).id == old(self).id,
            final(self).status == old(self).status,
            final(self).role == old(self).role,
            final(self).res == old(self).res,
            final(self).tokens == old(self).tokens,
    {
        self.username = self.res.clone();
    }

    /// The model player's role.
    pub fn role(&self) -> (r: Identity)
        ensures
            r == self.role,
    {
        self.role
    }

    /// Gives the model player a role.
    pub fn set_role(&mut self, r: Identity)
        ensures
            *final(self) == (Doubao { role: r, ..*old(self) }),
    {
        self.role = r;
    }

    /// Whether the model player is alive.
    pub fn status(&self) -> (s: LifeStatus)
        ensures
            s == self.status,
    {
        self.status
    }

    /// Sets whether the model player is alive.
    pub fn set_status(&mut self, s: LifeStatus)
        ensures
            *final(self) == (Doubao { status: s, ..*old(self) }),
    {
        self.status = s;
    }

    /// The name under which the model player appears in messages.
    pub fn name(&self) -> (s: String)
        ensures
            s@ == display_name(self.username@, self.id as nat),
    {
        make_display_name(self.username.as_str(), self.id)
    }

    /// Gives the model player its seat number.
    pub fn set_id(&mut self, id: usize)
        ensures
            *final(self) == (Doubao { id: id, ..*old(self) }),
    {
        self.id = id;
    }

    /// The model player's seat number.
    pub fn get_id(&self) -> (id: usize)
        ensures
            id == self.id,
    {
        self.id
    }

    /// The tokens used so far: (prompt, completion).
    pub fn cost(&self) -> (c: (u64, u64))
        ensures
            c == self.tokens,
    {
        self.tokens
    }
}

/// The name shown for the first candidate with id `tar`, or `ERROR`.
pub fn target_name_of(list: &Vec<VoteEntry>, tar: usize) -> (s: String)
    ensures
        s@ == target_name(entries_view(list@), tar),
{
    let ghost lv = entries_view(list@);
    let mut c: usize = 0;
    while c < list.len()
        invariant
            c <= list.len(),
            lv == entries_view(list@),
            forall|j: int| 0 <= j < c ==> lv[j].0 != tar,
        decreases list.len() - c,
    {
        if list[c].0 == tar {
            proof {
                assert(lv[c as int].0 == tar);
                let k = choose|i: int| 0 <= i < lv.len() && lv[i].0 == tar
                    && forall|j: int| 0 <= j < i ==> lv[j].0 != tar;
                if k < c { assert(lv[k].0 != tar); }
                if k > c { assert(lv[c as int].0 != tar); }
                assert(k == c);
            }
            return list[c].1.clone();
        }
        c = c + 1;
    }
    String::from_str("ERROR")
}

/// The digits of a text, in order.
pub fn only_digits(s: &str) -> (res: String)
    ensures
        res@ == digits_of(s@),
{
    let len = s.unicode_len();
    let mut res = String::new();
    let mut i: usize = 0;
    while i < len
        invariant
            i <= len,
            len == s@.len(),
            res@ == digits_of(s@.take(i as int)),
        decreases len - i,
    {
        let c = s.get_char(i);
        assert(s@.take(i + 1).drop_last() =~= s@.take(i as int));
        assert(s@.take(i + 1).last() == c);
        reveal_with_fuel(Seq::<_>::filter, 1);
        if '0' <= c && c <= '9' {
            push_char(&mut res, c);
        }
        i = i + 1;
    }
    assert(s@.take(i as int) =~= s@);
    res
}

} // verus!
