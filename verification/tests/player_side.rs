use twt_werewolf_master_ng::judger::roles::Identity;
use twt_werewolf_master_ng::player::comm::Message;
use twt_werewolf_master_ng::player::hunter::Hunter;
use twt_werewolf_master_ng::player::villager::Villager;
use twt_werewolf_master_ng::player::werewolf::Werewolf;
use twt_werewolf_master_ng::player::{react, relays_to_await, Player, Reaction, Role, Stage};

fn text(s: &str) -> Message {
    Message::Text(s.to_string())
}

#[test]
fn role_from_name() {
    assert_eq!(Player::map_role("平民"), Some(Role::Villager));
    assert_eq!(Player::map_role("狼人"), Some(Role::Werewolf));
    assert_eq!(Player::map_role("猎人"), Some(Role::Hunter));
    assert_eq!(Player::map_role("Raw"), None);
    assert_eq!(Player::map_role(""), None);
}

#[test]
fn born_messages() {
    assert_eq!(Villager::new().born(3, "twt"), "twt（3 号）你的角色是 平民。");
    assert_eq!(Werewolf::new().born(3, "twt"), "twt（3 号）你的角色是 狼人。");
    assert_eq!(Hunter::new().born(3, "twt"), "twt（3 号）你的角色是 猎人");
}

#[test]
fn player_takes_role() {
    let mut p = Player::new(2, "舔一舔".to_string());
    assert_eq!(p.role, Role::Raw);
    assert_eq!(p.born(), None);
    assert_eq!(p.get_role("医生"), None);
    assert_eq!(p.role, Role::Raw);
    assert_eq!(p.get_role("狼人"), Some("舔一舔（2 号）你的角色是 狼人。".to_string()));
    assert_eq!(p.role, Role::Werewolf);
    assert!(p.role.votes_at_night());
    assert!(!p.role.shoots_on_death());
    assert!(Role::Hunter.shoots_on_death());
    assert!(!Role::Villager.votes_at_night());
}

#[test]
fn reactions_while_talking_and_voting() {
    assert!(matches!(react(Stage::Chat, Message::Begin), Reaction::Speak));
    assert!(matches!(react(Stage::Vote, Message::Begin), Reaction::Vote));
    assert!(matches!(react(Stage::DeathCheck, Message::Begin), Reaction::Die));
    assert!(matches!(react(Stage::Chat, text("hi")), Reaction::Show(s) if s == "hi"));
    assert!(matches!(react(Stage::Vote, Message::End), Reaction::Done));
    assert!(matches!(react(Stage::DeathCheck, Message::Number(1)), Reaction::Fail));
    assert!(matches!(react(Stage::Chat, Message::Json("[]".to_string())), Reaction::Fail));
}

#[test]
fn reactions_while_watching() {
    assert!(matches!(react(Stage::Watch, text("好人胜利")), Reaction::Finish(s) if s == "好人胜利"));
    assert!(matches!(react(Stage::Watch, text("狼人胜利")), Reaction::Finish(_)));
    assert!(matches!(react(Stage::Watch, text("a 死了。")), Reaction::Show(_)));
    assert!(matches!(react(Stage::Watch, Message::Begin), Reaction::Ignore));
    assert!(matches!(react(Stage::Watch, Message::Number(3)), Reaction::Ignore));
}

#[test]
fn reactions_at_game_over_check() {
    assert!(matches!(react(Stage::OverCheck, Message::End), Reaction::Done));
    assert!(matches!(react(Stage::OverCheck, text("狼人胜利")), Reaction::Finish(s) if s == "狼人胜利"));
    assert!(matches!(react(Stage::OverCheck, Message::Begin), Reaction::Fail));
}

#[test]
fn waiting_for_the_others() {
    assert_eq!(relays_to_await(1, 4), 3);
    assert_eq!(relays_to_await(4, 4), 0);
}

#[test]
fn player_learns_role_from_judger_name() {
    assert_eq!(Player::map_role(&Identity::Villager.name()), Some(Role::Villager));
    assert_eq!(Player::map_role(&Identity::Werewolf.name()), Some(Role::Werewolf));
    assert_eq!(Player::map_role(&Identity::Hunter.name()), Some(Role::Hunter));
}
