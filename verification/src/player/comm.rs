//! Messages as the player receives them from the judger, and the replies it
//! sends back.

use vstd::prelude::*;
use vstd::string::*;
use crate::text::{decimal, parse_usize_spec, parse_usize, usize_to_string, push_char};
use crate::judger::roles::responder::json_of_names;

verus! {

/// A protocol message.
#[derive(Debug)]
pub enum Message {
    Text(String),
    Number(usize),
    Json(String),
    Begin,
    End,
}

/// The mathematical value of a [`Message`].
pub enum MessageModel {
    Text(Seq<char>),
    Number(nat),
    Json(Seq<char>),
    Begin,
    End,
}

impl View for Message {
    type V = MessageModel;

    open spec fn view(&self) -> MessageModel {
        match self {
            Message::Text(s) => MessageModel::Text(s@),
            Message::Number(n) => MessageModel::Number(*n as nat),
            Message::Json(s) => MessageModel::Json(s@),
            Message::Begin => MessageModel::Begin,
            Message::End => MessageModel::End,
        }
    }
}

/// What a player makes of a line received from the judger: the first
/// character gives the kind, the rest the payload. `None` where the line is
/// empty, the kind is unknown, or a number does not parse.
pub open spec fn decode_spec(s: Seq<char>) -> Option<MessageModel> {
    if s.len() == 0 {
        None
    } else {
        let rest = s.drop_first();
        if s[0] == 'y' {
            Some(MessageModel::Begin)
        } else if s[0] == 'o' {
            Some(MessageModel::End)
        } else if s[0] == 'j' {
            Some(MessageModel::Json(rest))
        } else if s[0] == 'm' {
            Some(MessageModel::Text(rest))
        } else if s[0] == 'n' {
            match parse_usize_spec(rest) {
                Some(v) => Some(MessageModel::Number(v)),
                None => None,
            }
        } else {
            None
        }
    }
}

/// The line a player sends for a reply: `t` before a text, `n` before a
/// number, `j` before a JSON payload.
pub open spec fn reply_wire(m: MessageModel) -> Seq<char> {
    match m {
        MessageModel::Text(s) => seq!['t'] + s,
        MessageModel::Number(n) => seq!['n'] + decimal(n),
        MessageModel::Json(s) => seq!['j'] + s,
        _ => Seq::empty(),
    }
}

/// Whether a message is one a player can send as a reply.
pub open spec fn is_reply(m: MessageModel) -> bool {
    !(m is Begin) && !(m is End)
}

/// The line `s` with the end-of-message mark (the BEL character) after it.
pub open spec fn framed(s: Seq<char>) -> Seq<char> {
    s.push('\x07')
}

/// The byte that ends each line on the wire (BEL).
pub const END_MARK: u8 = 7;

/// The line carried by a stream of bytes: the bytes before the first end
/// mark `end`, or all of them when no end mark comes.
pub open spec fn line_before(bytes: Seq<u8>, end: u8) -> Seq<u8>
    decreases bytes.len(),
{
    if bytes.len() == 0 {
        Seq::empty()
    } else if bytes[0] == end {
        Seq::empty()
    } else {
        seq![bytes[0]] + line_before(bytes.drop_first(), end)
    }
}

/// Takes in the next byte of a line: the end mark `end` completes the line,
/// any other byte is added to it. Returns whether the line is complete.
pub fn take_byte(line: &mut Vec<u8>, b: u8, end: u8) -> (done: bool)
    ensures
        done == (b == end),
        done ==> final(line)@ == old(line)@,
        !done ==> final(line)@ == old(line)@.push(b),
{
    if b == end {
        true
    } else {
        line.push(b);
        false
    }
}

/// A line followed by its end mark is read back whole, whatever comes
/// after it, as long as the line holds no end mark itself.
pub proof fn lemma_framed_line_reads_back(line: Seq<u8>, rest: Seq<u8>, end: u8)
    requires
        !line.contains(end),
    ensures
        line_before(line.push(end) + rest, end) == line,
    decreases line.len(),
{
    let w = line.push(end) + rest;
    if line.len() == 0 {
        assert(w[0] == end);
    } else {
        assert(line[0] != end);
        assert(w[0] == line[0]);
        assert(w.drop_first() =~= line.drop_first().push(end) + rest);
        assert(!line.drop_first().contains(end)) by {
            if line.drop_first().contains(end) {
                let k = choose|k: int| 0 <= k < line.drop_first().len() && line.drop_first()[k] == end;
                assert(line[k + 1] == end);
            }
        }
        lemma_framed_line_reads_back(line.drop_first(), rest, end);
        assert(seq![line[0]] + line.drop_first() =~= line);
    }
}

/// Puts the end-of-message mark after a line.
pub fn frame(s: &str) -> (res: String)
    ensures
        res@ == framed(s@),
{
    let mut r = String::from_str(s);
    push_char(&mut r, '\x07');
    r
}

impl Message {
    /// The text of a `Text` or `Json` message.
    pub fn unwrap(self) -> (s: String)
        requires
            self is Text || self is Json,
        ensures
            self matches Message::Text(t) ==> s == t,
            self matches Message::Json(t) ==> s == t,
    {
        match self {
            Message::Text(s) => s,
            Message::Json(s) => s,
            _ => String::new(),
        }
    }

    /// Reads a line received from the judger.
    pub fn decode(s: &str) -> (res: Option<Message>)
        ensures
            res matches Some(m) ==> decode_spec(s@) == Some(m@),
            res is None ==> decode_spec(s@) is None,
    {
        let len = s.unicode_len();
        if len == 0 {
            return None;
        }
        let typ = s.get_char(0);
        let rest = s.substring_char(1, len);
        assert(rest@ =~= s@.drop_first());
        if typ == 'y' {
            Some(Message::Begin)
        } else if typ == 'o' {
            Some(Message::End)
        } else if typ == 'j' {
            Some(Message::Json(String::from_str(rest)))
        } else if typ == 'm' {
            Some(Message::Text(String::from_str(rest)))
        } else if typ == 'n' {
            match parse_usize(rest) {
                Some(v) => Some(Message::Number(v)),
                None => None,
            }
        } else {
            None
        }
    }

    /// The line a player sends for this reply.
    pub fn encode(&self) -> (res: String)
        requires
            is_reply(self@),
        ensures
            res@ == reply_wire(self@),
    {
        match self {
            Message::Text(s) => {
                let mut r = String::from_str("t");
                proof { reveal_strlit("t"); }
                r.append(s.as_str());
                r
            },
            Message::Number(n) => {
                let mut r = String::from_str("n");
                proof { reveal_strlit("n"); }
                let d = usize_to_string(*n);
                r.append(d.as_str());
                r
            },
            Message::Json(s) => {
                let mut r = String::from_str("j");
                proof { reveal_strlit("j"); }
                r.append(s.as_str());
                r
            },
            _ => String::new(),
        }
    }
}

/// The list of names that the JSON text `s` holds, as `serde_json` reads a
/// list of strings; `None` where `s` is no such text.
pub uninterp spec fn names_of_json(s: Seq<char>) -> Option<Seq<Seq<char>>>;

/// The views of an optional list of strings.
pub open spec fn opt_views(r: Option<Vec<String>>) -> Option<Seq<Seq<char>>> {
    match r {
        Some(v) => Some(v@.map_values(|x: String| x@)),
        None => None,
    }
}

/// Whether `r` is what was written, for every list that `serde_json`
/// writes as the text `s`.
pub open spec fn reads_back(s: Seq<char>, r: Option<Seq<Seq<char>>>) -> bool {
    forall|n: Seq<Seq<char>>| #[trigger] json_of_names(n) == s ==> r == Some(n)
}

/// Reads a list of names from JSON with `serde_json::from_str`.
/// The result is the list that the text holds, or `None` where the text is
/// not a JSON array of strings. A text that `serde_json::to_string` made of a
/// list of strings is read back as that list.
#[verifier::external_body]
fn json_to_names(s: &str) -> (res: Option<Vec<String>>)
    ensures
        res is Some <==> names_of_json(s@) is Some,
        res matches Some(v) ==> v@.map_values(|x: String| x@) == names_of_json(s@)->0,
        reads_back(s@, opt_views(res)),
{
    serde_json::from_str::<Vec<String>>(s).ok()
}

/// The candidates' names carried by a message: the list its text holds as
/// JSON. `None` where the message carries no text or the text is no JSON
/// list of strings.
pub fn candidates(m: Message) -> (res: Option<Vec<String>>)
    ensures
        !(m is Text || m is Json) ==> res is None,
        m matches Message::Text(s) ==> opt_views(res) == names_of_json(s@) && reads_back(s@, opt_views(res)),
        m matches Message::Json(s) ==> opt_views(res) == names_of_json(s@) && reads_back(s@, opt_views(res)),
{
    match m {
        Message::Text(s) => json_to_names(s.as_str()),
        Message::Json(s) => json_to_names(s.as_str()),
        _ => None,
    }
}

/// Where the name the player picked stands on the list: the first name
/// equal to it.
pub fn choice_index(names: &Vec<String>, choice: &String) -> (res: Option<usize>)
    ensures
        res matches Some(i) ==> i < names.len() && names@[i as int]@ == choice@
            && forall|j: int| 0 <= j < i ==> names@[j]@ != choice@,
        res is None ==> forall|j: int| 0 <= j < names.len() ==> names@[j]@ != choice@,
{
    let mut i: usize = 0;
    while i < names.len()
        invariant
            i <= names.len(),
            forall|j: int| 0 <= j < i ==> names@[j]@ != choice@,
        decreases names.len() - i,
    {
        if names[i] == *choice {
            return Some(i);
        }
        i = i + 1;
    }
    None
}

/// A player reads back exactly the candidate names the judger wrote.
pub proof fn lemma_player_reads_candidates(names: Seq<Seq<char>>, r: Option<Seq<Seq<char>>>)
    requires
        reads_back(json_of_names(names), r),
    ensures
        r == Some(names),
{
}

/// When the candidate names differ from one another, the position a player
/// reports for the name picked is the position of that name.
pub proof fn lemma_choice_is_position(names: Seq<Seq<char>>, j: int, i: int)
    requires
        0 <= j < names.len(),
        0 <= i < names.len(),
        forall|a: int, b: int| 0 <= a < b < names.len() ==> names[a] != names[b],
        names[i] == names[j],
    ensures
        i == j,
{
    if i < j {
        assert(names[i] != names[j]);
    } else if j < i {
        assert(names[j] != names[i]);
    }
}

} // verus!
