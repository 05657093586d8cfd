use twt_werewolf_master_ng::judger::roles::responder::widget::{
    candidate_names, chat_order, chat_recipients, count_votes, court_prompt, human_ballot,
    join_details, living_players, living_votelist, make_votelist, max_votes, revote_prompt, runoff,
    settled, vote_round, VoteEntry, VoteStep,
};
use twt_werewolf_master_ng::judger::roles::{Identity, LifeStatus, DeathReason, Seat};

fn seat(id: usize, name: &str, role: Identity, status: LifeStatus) -> Seat {
    Seat { id, username: name.to_string(), role, status }
}

fn entries(ids: &[usize]) -> Vec<VoteEntry> {
    ids.iter().map(|&i| (i, format!("p{}", i))).collect()
}

#[test]
fn count_votes_counts_each_id_once() {
    let mut counts = count_votes(vec![3, 1, 3, 2, 3, 1]);
    counts.sort();
    assert_eq!(counts, vec![(1, 2), (2, 1), (3, 3)]);
    assert_eq!(count_votes(vec![]), vec![]);
}

#[test]
fn count_votes_lists_ids_by_first_ballot() {
    assert_eq!(count_votes(vec![3, 1, 3, 2, 3, 1]), vec![(3, 3), (1, 2), (2, 1)]);
}

#[test]
fn max_votes_keeps_all_leaders() {
    assert_eq!(max_votes(vec![(1, 2), (2, 1), (3, 2)]), vec![1, 3]);
    assert_eq!(max_votes(vec![(5, 1)]), vec![5]);
    assert_eq!(max_votes(vec![(4, 0), (6, 0)]), vec![4, 6]);
}

#[test]
fn settled_only_with_one_candidate() {
    assert_eq!(settled(&entries(&[7])), Some(7));
    assert_eq!(settled(&entries(&[7, 8])), None);
    assert_eq!(settled(&entries(&[])), None);
}

#[test]
fn runoff_keeps_the_most_voted() {
    let list = entries(&[1, 2, 3]);
    assert_eq!(runoff(&list, vec![2, 2, 3]), entries(&[2]));
    assert_eq!(runoff(&list, vec![1, 3]), entries(&[1, 3]));
    assert_eq!(runoff(&list, vec![3, 1, 1, 3]), entries(&[1, 3]));
}

#[test]
fn unanimous_vote_settles() {
    let list = entries(&[4, 5, 6]);
    let next = runoff(&list, vec![5, 5, 5]);
    assert_eq!(settled(&next), Some(5));
}

#[test]
fn ballots_off_the_list_empty_the_runoff() {
    let list = entries(&[1, 2]);
    assert_eq!(runoff(&list, vec![9, 9, 1]), vec![]);
}

#[test]
fn details_are_joined_by_lines() {
    assert_eq!(join_details(&vec![]), "");
    assert_eq!(join_details(&vec!["a".to_string()]), "a");
    assert_eq!(join_details(&vec!["a\n".to_string(), "b".to_string()]), "a\n\nb");
}

#[test]
fn human_ballot_names_the_pick() {
    let list = entries(&[3, 8]);
    assert_eq!(human_ballot("x（1 号）", &list, 1), ("x（1 号） -> p8\n".to_string(), 8));
}

#[test]
fn votelist_shows_names() {
    let players = vec![
        seat(1, "twt", Identity::Werewolf, LifeStatus::Alive),
        seat(2, "舔一舔", Identity::Villager, LifeStatus::Dead),
        seat(3, "c", Identity::Hunter, LifeStatus::Alive),
    ];
    assert_eq!(make_votelist(&players), vec![
        (1, "twt（1 号）".to_string()),
        (2, "舔一舔（2 号）".to_string()),
        (3, "c（3 号）".to_string()),
    ]);
    assert_eq!(living_votelist(&players), vec![(1, "twt（1 号）".to_string()), (3, "c（3 号）".to_string())]);
    assert_eq!(living_players(&players).len(), 2);
    assert_eq!(candidate_names(&make_votelist(&players))[1], "舔一舔（2 号）");
}

#[test]
fn prompts() {
    assert_eq!(revote_prompt(), "请在平票玩家中再次投票。");
    assert_eq!(court_prompt(), "选择处决对象");
}

#[test]
fn chat_reaches_everyone_but_the_speaker() {
    let players = vec![
        seat(1, "a", Identity::Werewolf, LifeStatus::Alive),
        seat(2, "b", Identity::Villager, LifeStatus::Dead),
        seat(3, "c", Identity::Hunter, LifeStatus::Alive),
        seat(4, "d", Identity::Villager, LifeStatus::NewDeath(DeathReason::Gun)),
        seat(5, "e", Identity::Villager, LifeStatus::Alive),
    ];
    let (speakers, listeners) = chat_order(&players);
    assert_eq!(speakers, vec![0, 2, 4]);
    assert_eq!(listeners, vec![1, 3]);
    assert_eq!(chat_recipients(&speakers, &listeners, 0), vec![1, 3, 2, 4]);
    assert_eq!(chat_recipients(&speakers, &listeners, 1), vec![1, 3, 0, 4]);
    assert_eq!(chat_recipients(&speakers, &listeners, 2), vec![1, 3, 0, 2]);
}

#[test]
fn vote_rounds() {
    let list = entries(&[1, 2, 3]);
    match vote_round(&list, vec![2, 2, 3]) {
        VoteStep::Decided(id) => assert_eq!(id, 2),
        VoteStep::Again(_) => panic!("expected a winner"),
    }
    match vote_round(&list, vec![1, 3, 2]) {
        VoteStep::Again(next) => assert_eq!(next, entries(&[1, 2, 3])),
        VoteStep::Decided(_) => panic!("expected a tie"),
    }
    match vote_round(&list, vec![3, 1]) {
        VoteStep::Again(next) => assert_eq!(next, entries(&[1, 3])),
        VoteStep::Decided(_) => panic!("expected a tie"),
    }
}
