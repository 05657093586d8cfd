//! The judger's side of the wire protocol: the lines it sends to a player
//! and the replies it accepts.

pub mod debug_bot;
pub mod doubao_ai;
pub mod widget;

use vstd::prelude::*;
use vstd::string::*;
use crate::text::{decimal, parse_usize_spec, parse_usize, usize_to_string, lemma_parse_decimal};
use crate::player::comm::{MessageModel, decode_spec, reply_wire};
use crate::judger::roles::responder::widget::{VoteEntry, entries_view, candidate_names};

verus! {

/// The line the judger sends for a message: `y` opens a turn, `o` closes
/// one, `m` comes before a text shown to the player, `n` before a number
/// and `j` before a JSON payload.
pub open spec fn send_wire(m: MessageModel) -> Seq<char> {
    match m {
        MessageModel::Begin => seq!['y'],
        MessageModel::End => seq!['o'],
        MessageModel::Text(s) => seq!['m'] + s,
        MessageModel::Number(n) => seq!['n'] + decimal(n),
        MessageModel::Json(s) => seq!['j'] + s,
    }
}

/// The text of a reply line, which must start with `t`.
pub open spec fn text_reply_spec(s: Seq<char>) -> Option<Seq<char>> {
    if s.len() > 0 && s[0] == 't' {
        Some(s.drop_first())
    } else {
        None
    }
}

/// The number of a reply line, which must be `n` and a number.
pub open spec fn number_reply_spec(s: Seq<char>) -> Option<nat> {
    if s.len() > 0 && s[0] == 'n' {
        parse_usize_spec(s.drop_first())
    } else {
        None
    }
}

fn tagged(tag: &str, payload: &str) -> (res: String)
    ensures
        res@ == tag@ + payload@,
{
    let mut r = String::from_str(tag);
    r.append(payload);
    r
}

/// The line that opens a player's turn.
pub fn begin_line() -> (res: String)
    ensures
        res@ == send_wire(MessageModel::Begin),
{
    proof { reveal_strlit("y"); }
    String::from_str("y")
}

/// The line that closes a player's turn.
pub fn end_line() -> (res: String)
    ensures
        res@ == send_wire(MessageModel::End),
{
    proof { reveal_strlit("o"); }
    String::from_str("o")
}

/// The line that shows `msg` to a player.
pub fn msg_line(msg: &str) -> (res: String)
    ensures
        res@ == send_wire(MessageModel::Text(msg@)),
{
    proof { reveal_strlit("m"); }
    tagged("m", msg)
}

/// The line that sends the number `x` to a player.
pub fn number_line(x: usize) -> (res: String)
    ensures
        res@ == send_wire(MessageModel::Number(x as nat)),
{
    proof { reveal_strlit("n"); }
    let d = usize_to_string(x);
    tagged("n", d.as_str())
}

/// The line that sends a JSON payload to a player.
pub fn json_line(jstr: &str) -> (res: String)
    ensures
        res@ == send_wire(MessageModel::Json(jstr@)),
{
    proof { reveal_strlit("j"); }
    tagged("j", jstr)
}

/// Reads a text reply; `None` where the line does not start with `t`.
pub fn parse_text_reply(s: &str) -> (res: Option<String>)
    ensures
        res matches Some(t) ==> text_reply_spec(s@) == Some(t@),
        res is None ==> text_reply_spec(s@) is None,
{
    let len = s.unicode_len();
    if len > 0 && s.get_char(0) == 't' {
        let rest = s.substring_char(1, len);
        assert(rest@ =~= s@.drop_first());
        Some(String::from_str(rest))
    } else {
        None
    }
}

/// Reads a number reply; `None` where the line does not start with `n` or
/// the rest is not a number.
pub fn parse_number_reply(s: &str) -> (res: Option<usize>)
    ensures
        res matches Some(v) ==> number_reply_spec(s@) == Some(v as nat),
        res is None ==> number_reply_spec(s@) is None,
{
    let len = s.unicode_len();
    if len > 0 && s.get_char(0) == 'n' {
        let rest = s.substring_char(1, len);
        assert(rest@ =~= s@.drop_first());
        parse_usize(rest)
    } else {
        None
    }
}

/// Every message the judger sends reaches the player as that same message:
/// a turn opening, a turn closing, a text, a JSON payload, or a number that
/// fits in a machine word.
pub proof fn lemma_player_reads_what_judger_sends(m: MessageModel)
    requires
        m matches MessageModel::Number(n) ==> n <= usize::MAX,
    ensures
        decode_spec(send_wire(m)) == Some(m),
{
    let w = send_wire(m);
    match m {
        MessageModel::Text(s) => {
            assert(w.drop_first() =~= s);
        },
        MessageModel::Json(s) => {
            assert(w.drop_first() =~= s);
        },
        MessageModel::Number(n) => {
            assert(w.drop_first() =~= decimal(n));
            lemma_parse_decimal(n);
        },
        _ => {},
    }
}

/// Every text a player sends as a reply reaches the judger as that text,
/// and every number that fits in a machine word as that number.
pub proof fn lemma_judger_reads_what_player_replies(s: Seq<char>, n: nat)
    ensures
        text_reply_spec(reply_wire(MessageModel::Text(s))) == Some(s),
        n <= usize::MAX ==> number_reply_spec(reply_wire(MessageModel::Number(n))) == Some(n),
{
    assert(reply_wire(MessageModel::Text(s)).drop_first() =~= s);
    assert(reply_wire(MessageModel::Number(n)).drop_first() =~= decimal(n));
    if n <= usize::MAX {
        lemma_parse_decimal(n);
    }
}

/// The line that tells the players already connected that one more has
/// joined.
pub fn relay_line() -> (s: String)
    ensures
        s@ == "+"@,
{
    String::from_str("+")
}

/// How many relay lines the player who joined `k`-th receives by the time
/// `num` players have joined: one for each player who joined after it.
pub open spec fn relays_received(k: nat, num: nat) -> nat
    decreases num,
{
    if num <= k { 0 } else { relays_received(k, (num - 1) as nat) + 1 }
}

/// The `k`-th player to join receives exactly as many relay lines as it
/// waits for: one per player after it.
pub proof fn lemma_relays_match_wait(k: nat, num: nat)
    requires
        k <= num,
    ensures
        relays_received(k, num) == num - k,
    decreases num,
{
    if num > k {
        lemma_relays_match_wait(k, (num - 1) as nat);
    }
}

/// The JSON text that `serde_json::to_string` makes of a list of strings.
pub uninterp spec fn json_of_names(names: Seq<Seq<char>>) -> Seq<char>;

/// Writes a list of names as JSON with `serde_json::to_string`. Serializing
/// a list of strings does not fail in serde_json, so the result is taken as
/// it comes.
#[verifier::external_body]
fn names_to_json(names: &Vec<String>) -> (res: String)
    ensures
        res@ == json_of_names(names@.map_values(|s: String| s@)),
{
    serde_json::to_string(names).unwrap()
}

/// The lines that ask a player for a ballot: open the turn, show the
/// question, then send the candidates' names as a JSON list.
pub fn ballot_request(msg: &str, list: &Vec<VoteEntry>) -> (res: Vec<String>)
    ensures
        res@.map_values(|s: String| s@) == seq![
            send_wire(MessageModel::Begin),
            send_wire(MessageModel::Text(msg@)),
            send_wire(MessageModel::Json(json_of_names(entries_view(list@).map_values(|e: (usize, Seq<char>)| e.1)))),
        ],
{
    let names = candidate_names(list);
    let json = names_to_json(&names);
    let mut res = Vec::new();
    res.push(begin_line());
    res.push(msg_line(msg));
    res.push(json_line(json.as_str()));
    assert(res@.map_values(|s: String| s@) =~= seq![
        send_wire(MessageModel::Begin),
        send_wire(MessageModel::Text(msg@)),
        send_wire(MessageModel::Json(json_of_names(entries_view(list@).map_values(|e: (usize, Seq<char>)| e.1)))),
    ]);
    res
}

} // verus!
