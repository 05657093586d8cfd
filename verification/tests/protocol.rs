use twt_werewolf_master_ng::judger::roles::responder::{
    ballot_request, begin_line, end_line, json_line, msg_line, number_line, parse_number_reply,
    parse_text_reply, relay_line,
};
use twt_werewolf_master_ng::player::comm::{candidates, choice_index, frame, take_byte, Message, END_MARK};
use twt_werewolf_master_ng::text::{parse_usize, u64_to_string, usize_to_string};

#[test]
fn decimal_formatting() {
    assert_eq!(usize_to_string(0), "0");
    assert_eq!(usize_to_string(7), "7");
    assert_eq!(usize_to_string(1234), "1234");
    assert_eq!(usize_to_string(usize::MAX), usize::MAX.to_string());
    assert_eq!(u64_to_string(2024), "2024");
    assert_eq!(u64_to_string(u64::MAX), u64::MAX.to_string());
}

#[test]
fn decimal_parsing() {
    assert_eq!(parse_usize("42"), Some(42));
    assert_eq!(parse_usize("+42"), Some(42));
    assert_eq!(parse_usize("007"), Some(7));
    assert_eq!(parse_usize("0"), Some(0));
    assert_eq!(parse_usize(""), None);
    assert_eq!(parse_usize("+"), None);
    assert_eq!(parse_usize("-1"), None);
    assert_eq!(parse_usize("12a"), None);
    assert_eq!(parse_usize(" 1"), None);
    assert_eq!(parse_usize(&usize::MAX.to_string()), Some(usize::MAX));
    let too_big = format!("{}0", usize::MAX);
    assert_eq!(parse_usize(&too_big), None);
}

#[test]
fn decimal_parse_matches_std() {
    for s in ["", "+", "++1", "1+", "99", "+0", "00", "1_0", "٣", "18446744073709551615", "18446744073709551616"] {
        assert_eq!(parse_usize(s), s.parse::<usize>().ok(), "input {:?}", s);
    }
}

#[test]
fn judger_lines() {
    assert_eq!(begin_line(), "y");
    assert_eq!(end_line(), "o");
    assert_eq!(msg_line("你死了"), "m你死了");
    assert_eq!(number_line(15), "n15");
    assert_eq!(json_line("[\"a\"]"), "j[\"a\"]");
    assert_eq!(relay_line(), "+");
    assert_eq!(frame("y"), "y\x07");
}

#[test]
fn player_decodes_judger_lines() {
    assert!(matches!(Message::decode(&begin_line()), Some(Message::Begin)));
    assert!(matches!(Message::decode(&end_line()), Some(Message::End)));
    assert!(matches!(Message::decode("ytrailing"), Some(Message::Begin)));
    match Message::decode(&msg_line("狼人胜利")) {
        Some(Message::Text(s)) => assert_eq!(s, "狼人胜利"),
        other => panic!("unexpected {:?}", other),
    }
    match Message::decode(&number_line(3)) {
        Some(Message::Number(n)) => assert_eq!(n, 3),
        other => panic!("unexpected {:?}", other),
    }
    match Message::decode(&json_line("[1]")) {
        Some(Message::Json(s)) => assert_eq!(s, "[1]"),
        other => panic!("unexpected {:?}", other),
    }
    match Message::decode("m") {
        Some(Message::Text(s)) => assert_eq!(s, ""),
        other => panic!("unexpected {:?}", other),
    }
}

#[test]
fn player_rejects_bad_lines() {
    assert!(Message::decode("").is_none());
    assert!(Message::decode("x").is_none());
    assert!(Message::decode("t hello").is_none());
    assert!(Message::decode("n").is_none());
    assert!(Message::decode("nabc").is_none());
}

#[test]
fn player_replies_reach_judger() {
    let line = Message::Text("好人，过。".to_string()).encode();
    assert_eq!(line, "t好人，过。");
    assert_eq!(parse_text_reply(&line), Some("好人，过。".to_string()));
    let line = Message::Number(2).encode();
    assert_eq!(line, "n2");
    assert_eq!(parse_number_reply(&line), Some(2));
    assert_eq!(Message::Json("{}".to_string()).encode(), "j{}");
}

#[test]
fn judger_rejects_bad_replies() {
    assert_eq!(parse_text_reply(""), None);
    assert_eq!(parse_text_reply("mhello"), None);
    assert_eq!(parse_text_reply("t"), Some(String::new()));
    assert_eq!(parse_number_reply("t1"), None);
    assert_eq!(parse_number_reply("n"), None);
    assert_eq!(parse_number_reply("nx"), None);
    assert_eq!(parse_number_reply("n+9"), Some(9));
}

#[test]
fn message_unwrap() {
    assert_eq!(Message::Text("a".to_string()).unwrap(), "a");
    assert_eq!(Message::Json("[]".to_string()).unwrap(), "[]");
}

#[test]
fn candidate_names_survive_json() {
    let list = vec![
        (1, "舔一舔（1 号）".to_string()),
        (2, "twt \"quoted\"\n（2 号）".to_string()),
        (5, String::new()),
    ];
    let names: Vec<String> = list.iter().map(|e| e.1.clone()).collect();
    let lines = ballot_request("选择处决对象", &list);
    assert_eq!(lines.len(), 3);
    assert_eq!(lines[0], "y");
    assert_eq!(lines[1], "m选择处决对象");
    assert_eq!(lines[2], format!("j{}", serde_json::to_string(&names).unwrap()));
    let m = Message::decode(&lines[2]).unwrap();
    assert_eq!(candidates(m), Some(names));
}

#[test]
fn bad_json_is_refused() {
    assert_eq!(candidates(Message::Json("not json".to_string())), None);
    assert_eq!(candidates(Message::Json("[1, 2]".to_string())), None);
    assert_eq!(candidates(Message::Text("[\"a\"]".to_string())), Some(vec!["a".to_string()]));
    assert_eq!(candidates(Message::Json("[]".to_string())), Some(Vec::new()));
    assert_eq!(candidates(Message::Begin), None);
    assert_eq!(candidates(Message::Number(3)), None);
}

#[test]
fn choice_picks_first_match() {
    let names = vec!["a".to_string(), "b".to_string(), "b".to_string()];
    assert_eq!(choice_index(&names, &"b".to_string()), Some(1));
    assert_eq!(choice_index(&names, &"a".to_string()), Some(0));
    assert_eq!(choice_index(&names, &"c".to_string()), None);
}

#[test]
fn lines_are_read_up_to_the_end_mark() {
    let wire = frame("m狼人胜利");
    let mut line = Vec::new();
    let mut complete = false;
    for &b in wire.as_bytes().iter().chain([b'o', 7].iter()) {
        if take_byte(&mut line, b, END_MARK) {
            complete = true;
            break;
        }
    }
    assert!(complete);
    assert_eq!(String::from_utf8(line).unwrap(), "m狼人胜利");
    let mut line = vec![1u8];
    assert!(!take_byte(&mut line, b'a', b'\n'));
    assert!(take_byte(&mut line, b'\n', b'\n'));
    assert_eq!(line, vec![1u8, b'a']);
}
