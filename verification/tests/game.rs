use twt_werewolf_master_ng::judger::log::log_file_name;
use twt_werewolf_master_ng::judger::roles::hunter::Hunter;
use twt_werewolf_master_ng::judger::roles::werewolf::Werewolf;
use twt_werewolf_master_ng::judger::roles::{
    death_notice, last_words, last_words_request, make_display_name, role_map, DeathReason,
    DeathStep, Identity, LifeStatus, RoleGroup, Seat,
};
use twt_werewolf_master_ng::judger::{
    expand_roles, living_seats, next_phase, role_options, sort_by_id, total_tokens, DeathAction, Judger,
    Outcome, Phase,
};

fn seat(id: usize, role: Identity, status: LifeStatus) -> Seat {
    Seat { id, username: format!("p{}", id), role, status }
}

fn table(players: Vec<Seat>, enabled: usize) -> Judger {
    let mut j = Judger::new();
    j.players = players;
    j.enabled_roles = vec![(Identity::Villager, 0); enabled];
    j
}

#[test]
fn new_judger_is_empty() {
    let j = Judger::new();
    assert!(j.players.is_empty());
    assert!(j.enabled_roles.is_empty());
    assert_eq!(j.player_num, 0);
    assert_eq!(j.ai_num, 0);
    assert_eq!(j.bind_addr, "");
}

#[test]
fn role_names() {
    assert_eq!(Identity::Villager.name(), "平民");
    assert_eq!(Identity::Werewolf.name(), "狼人");
    assert_eq!(Identity::Hunter.name(), "猎人");
    assert_eq!(Identity::Raw.name(), "Raw");
    assert_eq!(role_options(), vec![Identity::Hunter]);
}

#[test]
fn enabled_roles_from_choice() {
    let mut j = Judger::new();
    j.get_enabled(&vec!["猎人".to_string()]);
    assert_eq!(j.enabled_roles, vec![(Identity::Hunter, 0), (Identity::Villager, 0), (Identity::Werewolf, 0)]);
    j.get_enabled(&vec![]);
    assert_eq!(j.enabled_roles, vec![(Identity::Villager, 0), (Identity::Werewolf, 0)]);
    j.get_enabled(&vec!["平民".to_string()]);
    assert_eq!(j.enabled_roles, vec![(Identity::Villager, 0), (Identity::Werewolf, 0)]);
}

#[test]
fn counts_and_seats() {
    let mut j = Judger::new();
    j.get_enabled(&vec!["猎人".to_string()]);
    j.set_role_count(0, 1);
    j.set_role_count(1, 2);
    j.set_role_count(2, 2);
    assert_eq!(j.player_num, 5);
    assert_eq!(j.enabled_roles, vec![(Identity::Hunter, 1), (Identity::Villager, 2), (Identity::Werewolf, 2)]);
    j.set_ai_num(2);
    assert_eq!(j.human_num(), 3);
    j.seat_players();
    assert_eq!(j.players.len(), 5);
    for (i, s) in j.players.iter().enumerate() {
        assert_eq!(s.id, i + 1);
        assert_eq!(s.role, Identity::Raw);
        assert_eq!(s.status, LifeStatus::Alive);
    }
    j.set_username(1, "twt".to_string());
    assert_eq!(j.players[1].name(), "twt（2 号）");
    assert_eq!(j.players[0].username, "");
}

#[test]
fn roles_are_handed_out_by_count() {
    let mut changed = false;
    for _ in 0..30 {
        let mut j = Judger::new();
        j.get_enabled(&vec!["猎人".to_string()]);
        j.set_role_count(0, 1);
        j.set_role_count(1, 2);
        j.set_role_count(2, 2);
        j.seat_players();
        j.assign_role();
        let count = |r: Identity| j.players.iter().filter(|s| s.role == r).count();
        assert_eq!(count(Identity::Hunter), 1);
        assert_eq!(count(Identity::Villager), 2);
        assert_eq!(count(Identity::Werewolf), 2);
        assert_eq!(count(Identity::Raw), 0);
        let order: Vec<Identity> = j.players.iter().map(|s| s.role).collect();
        if order != expand_roles(&j.enabled_roles) {
            changed = true;
        }
        for (i, s) in j.players.iter().enumerate() {
            assert_eq!(s.id, i + 1);
        }
    }
    assert!(changed);
}

#[test]
fn expand_in_order() {
    assert_eq!(
        expand_roles(&vec![(Identity::Hunter, 1), (Identity::Villager, 0), (Identity::Werewolf, 2)]),
        vec![Identity::Hunter, Identity::Werewolf, Identity::Werewolf]
    );
}

#[test]
fn werewolves_win_when_as_many_as_the_rest() {
    let j = table(vec![
        seat(1, Identity::Werewolf, LifeStatus::Alive),
        seat(2, Identity::Villager, LifeStatus::Alive),
        seat(3, Identity::Villager, LifeStatus::Dead),
    ], 2);
    assert_eq!(j.is_over(), Outcome::WolvesWin);
    assert_eq!(j.is_over().message(), "狼人胜利");
    let (w, m, c) = j.devide();
    assert_eq!((w, m, c), (vec![0], vec![1], vec![]));
}

#[test]
fn village_wins_without_werewolves() {
    let j = table(vec![
        seat(1, Identity::Werewolf, LifeStatus::Dead),
        seat(2, Identity::Villager, LifeStatus::Alive),
        seat(3, Identity::Hunter, LifeStatus::Alive),
    ], 3);
    assert_eq!(j.is_over(), Outcome::VillagersWin);
    assert_eq!(j.is_over().message(), "好人胜利");
}

#[test]
fn game_goes_on() {
    let j = table(vec![
        seat(1, Identity::Werewolf, LifeStatus::Alive),
        seat(2, Identity::Villager, LifeStatus::Alive),
        seat(3, Identity::Hunter, LifeStatus::Alive),
    ], 3);
    assert_eq!(j.is_over(), Outcome::Continue);
    assert_eq!(j.is_over().message(), "");
}

#[test]
fn werewolves_win_once_special_roles_are_gone() {
    let j = table(vec![
        seat(1, Identity::Werewolf, LifeStatus::Alive),
        seat(2, Identity::Villager, LifeStatus::Alive),
        seat(3, Identity::Villager, LifeStatus::Alive),
        seat(4, Identity::Hunter, LifeStatus::Dead),
    ], 3);
    assert_eq!(j.is_over(), Outcome::WolvesWin);
    let j2 = table(vec![
        seat(1, Identity::Werewolf, LifeStatus::Alive),
        seat(2, Identity::Villager, LifeStatus::Alive),
        seat(3, Identity::Villager, LifeStatus::Alive),
    ], 2);
    assert_eq!(j2.is_over(), Outcome::Continue);
}

#[test]
fn empty_table_counts_as_werewolf_win() {
    let j = table(vec![seat(1, Identity::Villager, LifeStatus::Dead)], 2);
    assert_eq!(j.is_over(), Outcome::WolvesWin);
}

#[test]
fn deaths_are_dealt_with_in_seat_order() {
    let mut j = table(vec![
        seat(1, Identity::Villager, LifeStatus::Alive),
        seat(2, Identity::Hunter, LifeStatus::NewDeath(DeathReason::Normal)),
        seat(3, Identity::Werewolf, LifeStatus::Dead),
        seat(4, Identity::Villager, LifeStatus::NewDeath(DeathReason::Normal)),
        seat(5, Identity::Werewolf, LifeStatus::Alive),
    ], 3);
    assert_eq!(j.next_dying(), Some(1));
    assert_eq!(j.death_recipients(1), vec![0, 2, 4, 3]);
    j.settle_death(1);
    assert_eq!(j.players[1].status, LifeStatus::Dead);
    let targets = Hunter::targets(&j.players);
    assert_eq!(targets, vec![(1, "p1（1 号）".to_string()), (5, "p5（5 号）".to_string())]);
    j.strike(5, DeathReason::Gun);
    assert_eq!(j.players[4].status, LifeStatus::NewDeath(DeathReason::Gun));
    assert_eq!(j.next_dying(), Some(3));
    assert_eq!(j.death_recipients(3), vec![0, 1, 2, 4]);
    j.settle_death(3);
    assert_eq!(j.next_dying(), Some(4));
    j.settle_death(4);
    assert_eq!(j.next_dying(), None);
    // No werewolf is left, but neither is the hunter, in a game with a
    // special role: the werewolves' condition is checked first.
    assert_eq!(j.is_over(), Outcome::WolvesWin);
}

#[test]
fn death_measure_drops() {
    let measure = |j: &Judger| {
        let fresh = j.players.iter().filter(|s| matches!(s.status, LifeStatus::NewDeath(_))).count();
        let living = j.players.iter().filter(|s| s.status == LifeStatus::Alive).count();
        fresh + 2 * living
    };
    let mut j = table(vec![
        seat(1, Identity::Hunter, LifeStatus::NewDeath(DeathReason::Normal)),
        seat(2, Identity::Villager, LifeStatus::Alive),
    ], 3);
    let m0 = measure(&j);
    j.settle_death(0);
    let m1 = measure(&j);
    j.strike(2, DeathReason::Gun);
    let m2 = measure(&j);
    assert!(m1 < m0 && m2 < m1);
}

#[test]
fn execute_marks_the_sentenced() {
    let mut j = table(vec![
        seat(1, Identity::Villager, LifeStatus::Alive),
        seat(2, Identity::Werewolf, LifeStatus::Alive),
    ], 2);
    j.execute(2);
    assert_eq!(j.players[1].status, LifeStatus::NewDeath(DeathReason::Normal));
    j.execute(9);
    assert_eq!(j.players[0].status, LifeStatus::Alive);
}

#[test]
fn werewolf_night_vote() {
    let players = vec![
        seat(1, Identity::Werewolf, LifeStatus::Alive),
        seat(2, Identity::Villager, LifeStatus::Alive),
        seat(3, Identity::Werewolf, LifeStatus::Dead),
        seat(4, Identity::Werewolf, LifeStatus::Alive),
    ];
    let (wolves, list) = Werewolf::night(&players);
    assert_eq!(wolves, vec![0, 3]);
    assert_eq!(list.iter().map(|e| e.0).collect::<Vec<_>>(), vec![1, 2, 4]);
    assert_eq!(Werewolf::kill_prompt(), "选出要刀的人。");
    assert_eq!(Hunter::shoot_prompt(), "选择开枪对象");
    assert_eq!(living_seats(&players), vec![0, 1, 3]);
}

#[test]
fn groups_and_death_steps() {
    assert_eq!(role_map(Identity::Villager), RoleGroup::Villager);
    assert_eq!(role_map(Identity::Werewolf), RoleGroup::Werewolf);
    assert_eq!(role_map(Identity::Hunter), RoleGroup::Hunter);
    assert_eq!(RoleGroup::Hunter.death_steps(), vec![DeathStep::AskLastWords, DeathStep::ShareLastWords, DeathStep::Shoot]);
    assert_eq!(
        RoleGroup::Villager.death_steps(),
        vec![DeathStep::AnnounceDeath, DeathStep::OpenTurn, DeathStep::AskLastWords, DeathStep::ShareLastWords]
    );
    assert!(RoleGroup::Werewolf.acts_at_night());
    assert!(!RoleGroup::Hunter.acts_at_night());
    assert!(!RoleGroup::Villager.acts_at_night());
}

#[test]
fn death_texts() {
    assert_eq!(death_notice("a（1 号）"), "a（1 号） 死了。");
    assert_eq!(last_words_request(), "你死了，请发表遗言。");
    assert_eq!(last_words("a（1 号）", "再见"), "a（1 号）的遗言: 再见");
    assert_eq!(make_display_name("twt", 12), "twt（12 号）");
}

#[test]
fn phases_cycle() {
    assert_eq!(next_phase(Phase::Night, true), Phase::NightDeaths);
    assert_eq!(next_phase(Phase::NightDeaths, false), Phase::Day);
    assert_eq!(next_phase(Phase::NightDeaths, true), Phase::Finished);
    assert_eq!(next_phase(Phase::Day, false), Phase::DayDeaths);
    assert_eq!(next_phase(Phase::DayDeaths, false), Phase::Night);
    assert_eq!(next_phase(Phase::DayDeaths, true), Phase::Finished);
    assert_eq!(next_phase(Phase::Finished, false), Phase::Finished);
}

#[test]
fn token_totals() {
    assert_eq!(total_tokens(&vec![]), (0, 0));
    assert_eq!(total_tokens(&vec![(0, 0), (120, 30), (5, 7)]), (125, 37));
}

#[test]
fn log_name() {
    assert_eq!(log_file_name(2024, 5, 1, 13, 4, 9), "twm_log_2024_5_1_13_4_9");
}

#[test]
fn four_quiet_phases_lead_to_the_next_night() {
    let mut p = Phase::Night;
    for _ in 0..4 {
        p = next_phase(p, false);
    }
    assert_eq!(p, Phase::Night);
}

#[test]
fn roles_leave_players_in_id_order() {
    let mut j = Judger::new();
    j.enabled_roles = vec![(Identity::Villager, 1), (Identity::Werewolf, 1)];
    j.players = vec![seat(2, Identity::Raw, LifeStatus::Alive), seat(1, Identity::Raw, LifeStatus::Dead)];
    j.assign_role();
    assert_eq!(j.players[0].id, 1);
    assert_eq!(j.players[0].status, LifeStatus::Dead);
    assert_eq!(j.players[1].id, 2);
    assert_eq!(j.players[1].status, LifeStatus::Alive);
    let mut roles: Vec<Identity> = j.players.iter().map(|s| s.role).collect();
    roles.sort_by_key(|r| *r as u8);
    assert_eq!(roles, vec![Identity::Villager, Identity::Werewolf]);
}

#[test]
fn death_steps_until_none_is_left() {
    let mut j = table(vec![
        seat(1, Identity::Hunter, LifeStatus::NewDeath(DeathReason::Normal)),
        seat(2, Identity::Villager, LifeStatus::Alive),
        seat(3, Identity::Werewolf, LifeStatus::Alive),
    ], 3);
    match j.death_step() {
        Some(DeathAction::Deal { dying, recipients, steps }) => {
            assert_eq!(dying, 0);
            assert_eq!(recipients, vec![1, 2]);
            assert_eq!(steps, vec![DeathStep::AskLastWords, DeathStep::ShareLastWords, DeathStep::Shoot]);
        }
        _ => panic!("expected a death to deal with"),
    }
    j.finish_death(0, Some(3));
    assert_eq!(j.players[0].status, LifeStatus::Dead);
    assert_eq!(j.players[2].status, LifeStatus::NewDeath(DeathReason::Gun));
    match j.death_step() {
        Some(DeathAction::Deal { dying, recipients, steps }) => {
            assert_eq!(dying, 2);
            assert_eq!(recipients, vec![0, 1]);
            assert_eq!(steps[0], DeathStep::AnnounceDeath);
        }
        _ => panic!("expected a death to deal with"),
    }
    j.finish_death(2, None);
    assert!(matches!(j.death_step(), Some(DeathAction::AllDone)));
    assert_eq!(j.players[0].status, LifeStatus::Dead);
    assert_eq!(j.players[1].status, LifeStatus::Alive);
    assert_eq!(j.players[2].status, LifeStatus::Dead);
    let raw = table(vec![seat(1, Identity::Raw, LifeStatus::NewDeath(DeathReason::Normal))], 2);
    assert!(raw.death_step().is_none());
}

#[test]
fn living_ids_are_found() {
    let j = table(vec![
        seat(1, Identity::Hunter, LifeStatus::NewDeath(DeathReason::Normal)),
        seat(2, Identity::Villager, LifeStatus::Alive),
        seat(3, Identity::Werewolf, LifeStatus::Dead),
    ], 3);
    assert!(!j.is_living_id(1));
    assert!(j.is_living_id(2));
    assert!(!j.is_living_id(3));
    assert!(!j.is_living_id(4));
}

#[test]
fn sorting_by_id_keeps_equal_ids_in_order() {
    let mut a = seat(2, Identity::Villager, LifeStatus::Alive);
    a.username = String::from("first");
    let mut b = seat(2, Identity::Werewolf, LifeStatus::Alive);
    b.username = String::from("second");
    let sorted = sort_by_id(vec![a, seat(1, Identity::Hunter, LifeStatus::Alive), b]);
    let names: Vec<String> = sorted.iter().map(|s| s.username.clone()).collect();
    assert_eq!(names, vec!["p1".to_string(), "first".to_string(), "second".to_string()]);
}
