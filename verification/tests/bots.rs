use twt_werewolf_master_ng::judger::roles::responder::debug_bot::DebugBot;
use twt_werewolf_master_ng::judger::roles::responder::doubao_ai::{
    only_digits, target_name_of, Doubao, CHAT_PROMPT, INIT_PROMPT, NAME_PROMPT, VOTE_PROMPT,
};
use twt_werewolf_master_ng::judger::roles::{DeathReason, Identity, LifeStatus};

fn list() -> Vec<(usize, String)> {
    vec![(1, "a（1 号）".to_string()), (3, "c（3 号）".to_string())]
}

#[test]
fn debug_bot_state() {
    let mut b = DebugBot::new();
    assert_eq!(b.get_id(), 0);
    assert_eq!(b.role(), Identity::Raw);
    assert_eq!(b.status(), LifeStatus::Alive);
    b.set_name();
    b.set_id(4);
    b.set_role(Identity::Hunter);
    b.set_status(LifeStatus::NewDeath(DeathReason::Gun));
    assert_eq!(b.name(), "舔一舔（4 号）");
    assert_eq!(b.role(), Identity::Hunter);
    assert_eq!(b.status(), LifeStatus::NewDeath(DeathReason::Gun));
    assert_eq!(b.rec_text(), "好人，过。");
}

#[test]
fn debug_bot_ballots() {
    let mut b = DebugBot::new();
    b.set_name();
    b.set_id(2);
    assert_eq!(b.ballot(&list(), 0), ("舔一舔（2 号） -> a（1 号）".to_string(), 1));
    assert_eq!(b.ballot(&list(), 5), ("舔一舔（2 号） -> c（3 号）".to_string(), 3));
    for _ in 0..20 {
        let (d, id) = b.vote("msg", &list());
        assert!(id == 1 || id == 3);
        assert!(d.starts_with("舔一舔（2 号） -> "));
    }
}

#[test]
fn doubao_conversation() {
    let mut d = Doubao::new();
    assert_eq!(d.prompts.len(), 1);
    assert_eq!(d.prompts[0].role, "system");
    assert_eq!(d.prompts[0].content, INIT_PROMPT);
    d.push("你的角色是 狼人");
    d.prepare_chat();
    assert_eq!(d.prompts[1].role, "system");
    assert_eq!(d.prompts[1].content, "你的角色是 狼人");
    assert_eq!(d.prompts[2].role, "user");
    assert_eq!(d.prompts[2].content, CHAT_PROMPT);
    d.take_reply("我是好人".to_string(), 10, 3);
    d.take_reply("真的".to_string(), 5, 2);
    assert_eq!(d.reply(), "真的");
    assert_eq!(d.cost(), (15, 5));
    d.prepare_name();
    assert_eq!(d.prompts[3].content, NAME_PROMPT);
    d.take_reply("小明".to_string(), 0, 0);
    d.adopt_name();
    d.set_id(6);
    assert_eq!(d.name(), "小明（6 号）");
    d.set_role(Identity::Villager);
    d.set_status(LifeStatus::Dead);
    assert_eq!(d.role(), Identity::Villager);
    assert_eq!(d.status(), LifeStatus::Dead);
    assert_eq!(d.get_id(), 6);
}

#[test]
fn doubao_vote() {
    let mut d = Doubao::new();
    d.take_reply("小明".to_string(), 0, 0);
    d.adopt_name();
    d.set_id(2);
    d.prepare_vote("选择处决对象", &list());
    let n = d.prompts.len();
    assert_eq!(d.prompts[n - 3].content, "选择处决对象");
    assert_eq!(d.prompts[n - 2].content, VOTE_PROMPT);
    assert_eq!(d.prompts[n - 1].role, "user");
    assert_eq!(d.prompts[n - 1].content, "候选名单 a（1 号） c（3 号）");
    d.take_reply("我选 3 号".to_string(), 0, 0);
    assert_eq!(d.vote_result(&list()), Some(("小明（2 号） -> c（3 号）".to_string(), 3)));
    d.take_reply("7".to_string(), 0, 0);
    assert_eq!(d.vote_result(&list()), Some(("小明（2 号） -> ERROR".to_string(), 7)));
    d.take_reply("不知道".to_string(), 0, 0);
    assert_eq!(d.vote_result(&list()), None);
    d.take_reply("1号和3号".to_string(), 0, 0);
    assert_eq!(d.vote_result(&list()), Some(("小明（2 号） -> ERROR".to_string(), 13)));
}

#[test]
fn digits_and_targets() {
    assert_eq!(only_digits("a1b2c3"), "123");
    assert_eq!(only_digits("无"), "");
    assert_eq!(target_name_of(&list(), 3), "c（3 号）");
    assert_eq!(target_name_of(&list(), 2), "ERROR");
}

#[test]
fn doubao_reads_the_api_answer() {
    let mut d = Doubao::new();
    d.take_reply(String::new(), 4, 1);
    let body = r#"{"choices":[{"message":{"role":"assistant","content":"我选 3 号"}}],"usage":{"prompt_tokens":12,"completion_tokens":5,"total_tokens":17}}"#;
    assert!(d.take_answer(body));
    assert_eq!(d.reply(), "我选 3 号");
    assert_eq!(d.cost(), (16, 6));
    assert_eq!(d.prompts.len(), 1);
}

#[test]
fn doubao_refuses_bad_answers() {
    let mut d = Doubao::new();
    d.take_reply("before".to_string(), 1, 2);
    assert!(!d.take_answer("not json"));
    assert!(!d.take_answer(r#"{"choices":[],"usage":{"prompt_tokens":1,"completion_tokens":1}}"#));
    assert!(!d.take_answer(r#"{"choices":[{"message":{"content":"x"}}],"usage":{"prompt_tokens":"1","completion_tokens":1}}"#));
    assert_eq!(d.reply(), "before");
    assert_eq!(d.cost(), (1, 2));
    let mut e = Doubao::new();
    e.take_reply(String::new(), u64::MAX, 0);
    assert!(!e.take_answer(r#"{"choices":[{"message":{"content":"x"}}],"usage":{"prompt_tokens":1,"completion_tokens":1}}"#));
    assert_eq!(e.cost(), (u64::MAX, 0));
}

#[test]
fn doubao_request_body() {
    let mut d = Doubao::new();
    d.ask("你好");
    let body = d.request_body("ep-1");
    let v: serde_json::Value = serde_json::from_str(&body).unwrap();
    assert_eq!(v["model"], "ep-1");
    assert_eq!(v["messages"][0]["role"], "system");
    assert_eq!(v["messages"][0]["content"], INIT_PROMPT);
    assert_eq!(v["messages"][1]["role"], "user");
    assert_eq!(v["messages"][1]["content"], "你好");
    assert_eq!(v["messages"].as_array().unwrap().len(), 2);
    let expected = format!(
        r#"{{"messages":[{{"content":{},"role":"system"}},{{"content":"你好","role":"user"}}],"model":"ep-1"}}"#,
        serde_json::to_string(INIT_PROMPT).unwrap()
    );
    assert_eq!(body, expected);
}
