//! Voting and the order of speaking.

use std::collections::HashMap;
use vstd::prelude::*;
use vstd::string::*;
use crate::judger::roles::{Seat, display_name};
use crate::judger::{picks, is_living, living_seats, lemma_picks, seats_where};
use crate::judger::roles::LifeStatus;

verus! {

broadcast use vstd::seq_lib::group_to_multiset_ensures;

/// A candidate of a vote: the player's id and the name shown for them.
pub type VoteEntry = (usize, String);

/// The ids and names a candidate list stands for.
pub open spec fn entries_view(list: Seq<VoteEntry>) -> Seq<(usize, Seq<char>)> {
    list.map_values(|e: VoteEntry| (e.0, e.1@))
}

/// How many of the ballots name `x`.
pub open spec fn count_of(ballots: Seq<usize>, x: usize) -> nat {
    ballots.to_multiset().count(x)
}

/// Whether `x` got a ballot and no one got more than `x`.
pub open spec fn is_top(ballots: Seq<usize>, x: usize) -> bool {
    &&& count_of(ballots, x) > 0
    &&& forall|y: usize| #[trigger] count_of(ballots, y) <= count_of(ballots, x)
}

/// The candidates that go on to the next round: those with the most ballots,
/// in their order on the list.
pub open spec fn runoff_spec(list: Seq<(usize, Seq<char>)>, ballots: Seq<usize>) -> Seq<(usize, Seq<char>)> {
    list.filter(|e: (usize, Seq<char>)| is_top(ballots, e.0))
}

/// The largest second component of a list of (id, count) pairs.
pub open spec fn max_count(s: Seq<(usize, usize)>) -> nat
    decreases s.len(),
{
    if s.len() == 0 {
        0
    } else {
        let m = max_count(s.drop_last());
        if s.last().1 > m { s.last().1 as nat } else { m }
    }
}

/// The ids of the pairs whose count is `m`, in order.
pub open spec fn ids_with_count(s: Seq<(usize, usize)>, m: nat) -> Seq<usize>
    decreases s.len(),
{
    if s.len() == 0 {
        Seq::empty()
    } else {
        let r = ids_with_count(s.drop_last(), m);
        if s.last().1 == m { r.push(s.last().0) } else { r }
    }
}

/// The candidates for a list of players: each player's id and name.
pub open spec fn votelist_spec(list: Seq<Seat>) -> Seq<(usize, Seq<char>)> {
    list.map_values(|s: Seat| (s.id, display_name(s.username@, s.id as nat)))
}

/// Copies of the living players, in seat order.
pub fn living_players(players: &Vec<Seat>) -> (res: Vec<Seat>)
    ensures
        res@ == picks(players@, |s: Seat| is_living(s)).map_values(|i: usize| players@[i as int]),
{
    let idx = living_seats(players);
    let n = players.len();
    proof { lemma_picks(players@, |s: Seat| is_living(s)); }
    let mut res: Vec<Seat> = Vec::new();
    let mut k: usize = 0;
    while k < idx.len()
        invariant
            k <= idx.len(),
            idx@ == picks(players@, |s: Seat| is_living(s)),
            forall|j: int| 0 <= j < idx.len() ==> 0 <= #[trigger] idx@[j] < players.len(),
            res@ == idx@.take(k as int).map_values(|i: usize| players@[i as int]),
        decreases idx.len() - k,
    {
        let i = idx[k];
        assert(0 <= idx@[k as int] < players.len());
        res.push(players[i].copy());
        assert(res@ =~= idx@.take(k + 1).map_values(|i: usize| players@[i as int]));
        k = k + 1;
    }
    assert(idx@.take(k as int) =~= idx@);
    res
}

/// The candidates of a vote among the living players, in seat order.
pub fn living_votelist(players: &Vec<Seat>) -> (res: Vec<VoteEntry>)
    ensures
        entries_view(res@) == votelist_spec(picks(players@, |s: Seat| is_living(s)).map_values(|i: usize| players@[i as int])),
{
    let living = living_players(players);
    make_votelist(&living)
}

/// The candidate list for the players `list`: each player's id and name.
pub fn make_votelist(list: &Vec<Seat>) -> (res: Vec<VoteEntry>)
    ensures
        res.len() == list.len(),
        forall|i: int| 0 <= i < list.len() ==> (#[trigger] res@[i]).0 == list@[i].id
            && res@[i].1@ == display_name(list@[i].username@, list@[i].id as nat),
        entries_view(res@) == votelist_spec(list@),
{
    let mut res: Vec<VoteEntry> = Vec::new();
    for i in 0..list.len()
        invariant
            res.len() == i,
            forall|j: int| 0 <= j < i ==> (#[trigger] res@[j]).0 == list@[j].id
                && res@[j].1@ == display_name(list@[j].username@, list@[j].id as nat),
    {
        res.push((list[i].id, list[i].name()));
    }
    assert(entries_view(res@) =~= votelist_spec(list@));
    res
}

/// Whether a ballot for `x` is cast before any ballot for `y`.
pub open spec fn voted_before(list: Seq<usize>, x: usize, y: usize) -> bool {
    exists|k: int| 0 <= k < list.len() && list[k] == x && !list.take(k).contains(y)
}

/// Counts the ballots: one pair (id, number of ballots for it) for each id
/// that got a ballot, in the order in which the ids first got one.
pub fn count_votes(list: Vec<usize>) -> (res: Vec<(usize, usize)>)
    ensures
        forall|i: int, j: int| 0 <= i < j < res.len() ==> voted_before(list@, res@[i].0, res@[j].0),
        forall|i: int, j: int| 0 <= i < j < res.len() ==> res@[i].0 != res@[j].0,
        forall|i: int| 0 <= i < res.len() ==> (#[trigger] res@[i]).1 == count_of(list@, res@[i].0),
        forall|x: usize| list@.contains(x) <==> exists|i: int| 0 <= i < res.len() && (#[trigger] res@[i]).0 == x,
{
    broadcast use vstd::std_specs::hash::group_hash_axioms;
    let mut count: HashMap<usize, usize> = HashMap::new();
    let n = list.len();
    let mut i: usize = 0;
    while i < n
        invariant
            n == list.len(),
            i <= n,
            forall|x: usize| #[trigger] count@.contains_key(x) <==> list@.take(i as int).contains(x),
            forall|x: usize| #[trigger] count@.contains_key(x) ==> count@[x] == count_of(list@.take(i as int), x),
        decreases n - i,
    {
        let x = list[i];
        let ghost pre = list@.take(i as int);
        assert(list@.take(i + 1) =~= pre.push(x));
        assert(list@.take(i + 1)[i as int] == x);
        match count.get(&x) {
            Some(c) => {
                let c = *c;
                assert(count_of(pre, x) <= pre.len()) by {
                    assert(pre.to_multiset().count(x) <= pre.to_multiset().len());
                }
                count.insert(x, c + 1);
            },
            None => {
                count.insert(x, 1);
            },
        }
        assert forall|y: usize| #[trigger] count@.contains_key(y) <==> list@.take(i + 1).contains(y) by {
            if y != x && list@.take(i + 1).contains(y) {
                let k = choose|k: int| 0 <= k < i + 1 && #[trigger] list@.take(i + 1)[k] == y;
                assert(pre[k] == y);
            }
            if y != x && pre.contains(y) {
                let k = choose|k: int| 0 <= k < i && #[trigger] pre[k] == y;
                assert(list@.take(i + 1)[k] == y);
            }
        }
        i = i + 1;
    }
    assert(list@.take(n as int) =~= list@);
    let mut res: Vec<(usize, usize)> = Vec::new();
    let mut j: usize = 0;
    while j < n
        invariant
            n == list.len(),
            j <= n,
            forall|x: usize| #[trigger] count@.contains_key(x) <==> (list@.contains(x) && !list@.take(j as int).contains(x)),
            forall|x: usize| #[trigger] count@.contains_key(x) ==> count@[x] == count_of(list@, x),
            forall|a: int, b: int| 0 <= a < b < res.len() ==> res@[a].0 != res@[b].0,
            forall|a: int| 0 <= a < res.len() ==> (#[trigger] res@[a]).1 == count_of(list@, res@[a].0),
            forall|x: usize| #[trigger] list@.take(j as int).contains(x) <==> exists|a: int| 0 <= a < res.len() && (#[trigger] res@[a]).0 == x,
            forall|a: int, b: int| 0 <= a < b < res.len() ==> voted_before(list@, res@[a].0, res@[b].0),
        decreases n - j,
    {
        let x = list[j];
        let ghost pre = list@.take(j as int);
        let ghost old_res = res@;
        assert(list@.take(j + 1) =~= pre.push(x));
        assert(list@.take(j + 1)[j as int] == x);
        assert(list@.contains(x)) by { assert(list@[j as int] == x); }
        let ghost fresh = count@.contains_key(x);
        assert(fresh <==> !pre.contains(x));
        match count.remove(&x) {
            Some(c) => {
                res.push((x, c));
            },
            None => {},
        }
        assert(res.len() == old_res.len() <==> pre.contains(x));
        assert forall|a: int, b: int| 0 <= a < b < res.len() implies voted_before(list@, res@[a].0, res@[b].0) by {
            if b == old_res.len() {
                let y = old_res[a].0;
                assert(res@[a] == old_res[a]);
                assert(res@[b].0 == x);
                assert(list@.take(j as int).contains(y));
                let k = choose|k: int| 0 <= k < j && #[trigger] pre[k] == y;
                assert(list@[k] == y);
                if list@.take(k).contains(x) {
                    let m = choose|m: int| 0 <= m < k && #[trigger] list@.take(k)[m] == x;
                    assert(pre[m] == x);
                }
            } else {
                assert(res@[a] == old_res[a] && res@[b] == old_res[b]);
            }
        }
        assert forall|y: usize| #[trigger] count@.contains_key(y) <==> (list@.contains(y) && !list@.take(j + 1).contains(y)) by {
            if y != x && list@.take(j + 1).contains(y) {
                let k = choose|k: int| 0 <= k < j + 1 && #[trigger] list@.take(j + 1)[k] == y;
                assert(pre[k] == y);
            }
            if y != x && pre.contains(y) {
                let k = choose|k: int| 0 <= k < j && #[trigger] pre[k] == y;
                assert(list@.take(j + 1)[k] == y);
            }
        }
        assert forall|a: int, b: int| 0 <= a < b < res.len() implies res@[a].0 != res@[b].0 by {
            if b == old_res.len() {
                assert(res@[b].0 == x);
                assert(old_res[a].0 == res@[a].0);
                if res@[a].0 == x {
                    assert(pre.contains(x));
                }
            } else {
                assert(res@[a] == old_res[a] && res@[b] == old_res[b]);
            }
        }
        assert forall|y: usize| #[trigger] list@.take(j + 1).contains(y) <==> exists|a: int| 0 <= a < res.len() && (#[trigger] res@[a]).0 == y by {
            if y == x {
                if res.len() > old_res.len() {
                    assert(res@[old_res.len() as int].0 == x);
                } else {
                    assert(pre.contains(x));
                    let a = choose|a: int| 0 <= a < old_res.len() && (#[trigger] old_res[a]).0 == x;
                    assert(res@[a] == old_res[a]);
                }
            } else {
                if list@.take(j + 1).contains(y) {
                    let k = choose|k: int| 0 <= k < j + 1 && #[trigger] list@.take(j + 1)[k] == y;
                    assert(pre[k] == y);
                    assert(list@.take(j as int).contains(y));
                    assert(exists|a: int| 0 <= a < old_res.len() && (#[trigger] old_res[a]).0 == y);
                    let a = choose|a: int| 0 <= a < old_res.len() && (#[trigger] old_res[a]).0 == y;
                    assert(res@[a] == old_res[a]);
                }
                if exists|a: int| 0 <= a < res.len() && (#[trigger] res@[a]).0 == y {
                    let a = choose|a: int| 0 <= a < res.len() && (#[trigger] res@[a]).0 == y;
                    if a < old_res.len() {
                        assert(old_res[a].0 == y);
                        assert(pre.contains(y));
                        let k = choose|k: int| 0 <= k < j && #[trigger] pre[k] == y;
                        assert(list@.take(j + 1)[k] == y);
                    } else {
                        assert(res@[a].0 == x);
                    }
                }
            }
        }
        j = j + 1;
    }
    assert(list@.take(n as int) =~= list@);
    res
}

proof fn lemma_max_count(s: Seq<(usize, usize)>)
    requires
        s.len() > 0,
    ensures
        forall|i: int| 0 <= i < s.len() ==> (#[trigger] s[i]).1 <= max_count(s),
        exists|i: int| 0 <= i < s.len() && (#[trigger] s[i]).1 == max_count(s),
    decreases s.len(),
{
    if s.len() > 1 {
        lemma_max_count(s.drop_last());
        assert forall|i: int| 0 <= i < s.len() implies (#[trigger] s[i]).1 <= max_count(s) by {
            if i < s.len() - 1 {
                assert(s[i] == s.drop_last()[i]);
            }
        }
        if s.last().1 > max_count(s.drop_last()) {
            assert(s[s.len() - 1].1 == max_count(s));
        } else {
            let k = choose|k: int| 0 <= k < s.len() - 1 && (#[trigger] s.drop_last()[k]).1 == max_count(s.drop_last());
            assert(s[k] == s.drop_last()[k]);
            assert(s[k].1 == max_count(s));
        }
    } else {
        assert(s.drop_last().len() == 0);
        assert(max_count(s.drop_last()) == 0);
        assert(s[0] == s.last());
    }
}

proof fn lemma_ids_with_count(s: Seq<(usize, usize)>, m: nat, x: usize)
    ensures
        ids_with_count(s, m).contains(x) <==> exists|i: int| 0 <= i < s.len() && (#[trigger] s[i]).0 == x && s[i].1 == m,
    decreases s.len(),
{
    if s.len() > 0 {
        lemma_ids_with_count(s.drop_last(), m, x);
        let r = ids_with_count(s.drop_last(), m);
        if exists|i: int| 0 <= i < s.len() && (#[trigger] s[i]).0 == x && s[i].1 == m {
            let i = choose|i: int| 0 <= i < s.len() && (#[trigger] s[i]).0 == x && s[i].1 == m;
            if i < s.len() - 1 {
                assert(s.drop_last()[i] == s[i]);
                assert(r.contains(x));
                if s.last().1 == m {
                    assert(r.push(s.last().0)[r.push(s.last().0).len() - 1] == s.last().0);
                    let k = choose|k: int| 0 <= k < r.len() && r[k] == x;
                    assert(r.push(s.last().0)[k] == x);
                }
            } else {
                assert(r.push(s.last().0)[r.len() as int] == x);
            }
        }
        if ids_with_count(s, m).contains(x) {
            if s.last().1 == m {
                let k = choose|k: int| 0 <= k < r.len() + 1 && r.push(s.last().0)[k] == x;
                if k < r.len() {
                    assert(r[k] == x);
                    let i = choose|i: int| 0 <= i < s.drop_last().len() && (#[trigger] s.drop_last()[i]).0 == x && s.drop_last()[i].1 == m;
                    assert(s[i] == s.drop_last()[i]);
                } else {
                    assert(s[s.len() - 1].0 == x);
                }
            } else {
                let i = choose|i: int| 0 <= i < s.drop_last().len() && (#[trigger] s.drop_last()[i]).0 == x && s.drop_last()[i].1 == m;
                assert(s[i] == s.drop_last()[i]);
            }
        }
    }
}

/// The ids that got the most ballots, in the order of the count list.
pub fn max_votes(count: Vec<(usize, usize)>) -> (res: Vec<usize>)
    requires
        count.len() > 0,
    ensures
        res@ == ids_with_count(count@, max_count(count@)),
{
    let n = count.len();
    let mut m: usize = 0;
    for i in 0..n
        invariant
            n == count.len(),
            m == max_count(count@.take(i as int)),
    {
        assert(count@.take(i + 1).drop_last() =~= count@.take(i as int));
        if count[i].1 > m {
            m = count[i].1;
        }
    }
    assert(count@.take(n as int) =~= count@);
    let mut res: Vec<usize> = Vec::new();
    for i in 0..n
        invariant
            n == count.len(),
            m == max_count(count@),
            res@ == ids_with_count(count@.take(i as int), m as nat),
    {
        assert(count@.take(i + 1).drop_last() =~= count@.take(i as int));
        if count[i].1 == m {
            res.push(count[i].0);
        }
    }
    assert(count@.take(n as int) =~= count@);
    res
}

fn contains_id(v: &Vec<usize>, x: usize) -> (res: bool)
    ensures
        res == v@.contains(x),
{
    for i in 0..v.len()
        invariant
            forall|j: int| 0 <= j < i ==> v@[j] != x,
    {
        if v[i] == x {
            return true;
        }
    }
    false
}

/// The winner of a vote that needs no more ballots: the only candidate left.
pub fn settled(list: &Vec<VoteEntry>) -> (res: Option<usize>)
    ensures
        list.len() == 1 ==> res == Some(list@[0].0),
        list.len() != 1 ==> res is None,
{
    if list.len() == 1 {
        Some(list[0].0)
    } else {
        None
    }
}

/// The candidates of the next round after one round of ballots: those that
/// got the most ballots. At least one ballot must have been cast.
pub fn runoff(list: &Vec<VoteEntry>, ballots: Vec<usize>) -> (res: Vec<VoteEntry>)
    requires
        ballots.len() > 0,
    ensures
        entries_view(res@) == runoff_spec(entries_view(list@), ballots@),
{
    let ghost b = ballots@;
    assert(b.contains(b[0]));
    let counts = count_votes(ballots);
    proof { lemma_max_count(counts@); }
    let again = max_votes(counts);
    let ghost m = max_count(counts@);
    assert forall|x: usize| again@.contains(x) <==> is_top(b, x) by {
        lemma_ids_with_count(counts@, m, x);
        if again@.contains(x) {
            let i = choose|i: int| 0 <= i < counts@.len() && (#[trigger] counts@[i]).0 == x && counts@[i].1 == m;
            assert forall|y: usize| #[trigger] count_of(b, y) <= count_of(b, x) by {
                if b.contains(y) {
                    let j = choose|j: int| 0 <= j < counts@.len() && (#[trigger] counts@[j]).0 == y;
                }
            }
            assert(count_of(b, x) > 0) by {
                let k = choose|k: int| 0 <= k < counts@.len() && (#[trigger] counts@[k]).1 == m;
                assert(counts@[k].1 == count_of(b, counts@[k].0));
                assert(b.contains(counts@[k].0));
            }
        }
        if is_top(b, x) {
            assert(b.contains(x));
            let i = choose|i: int| 0 <= i < counts@.len() && (#[trigger] counts@[i]).0 == x;
            let k = choose|k: int| 0 <= k < counts@.len() && (#[trigger] counts@[k]).1 == m;
            assert(counts@[k].1 == count_of(b, counts@[k].0));
            assert(count_of(b, counts@[k].0) <= count_of(b, x));
        }
    }
    let mut res: Vec<VoteEntry> = Vec::new();
    let n = list.len();
    for i in 0..n
        invariant
            n == list.len(),
            forall|x: usize| again@.contains(x) <==> is_top(b, x),
            entries_view(res@) == runoff_spec(entries_view(list@.take(i as int)), b),
    {
        let ghost lv = entries_view(list@.take(i + 1));
        assert(lv.drop_last() =~= entries_view(list@.take(i as int)));
        assert(lv.last() == (list@[i as int].0, list@[i as int].1@));
        if contains_id(&again, list[i].0) {
            let e = (list[i].0, list[i].1.clone());
            let ghost before = res@;
            res.push(e);
            assert(entries_view(res@) =~= entries_view(before).push((e.0, e.1@))) by {
                assert(res@ =~= before.push(e));
            }
        }
        reveal_with_fuel(Seq::<_>::filter, 1);
    }
    assert(list@.take(n as int) =~= list@);
    res
}

/// The lines of a vote's details, one under the other.
pub open spec fn join_lines(lines: Seq<Seq<char>>) -> Seq<char>
    decreases lines.len(),
{
    if lines.len() == 0 {
        Seq::empty()
    } else if lines.len() == 1 {
        lines[0]
    } else {
        join_lines(lines.drop_last()) + "\n"@ + lines.last()
    }
}

/// Joining puts exactly one line break between each two ballots: a single
/// line stays as it is, no lines give an empty text, one more line adds a
/// break and that line, and joining two runs of lines is joining each and
/// putting a break between them.
pub proof fn lemma_join_lines(lines: Seq<Seq<char>>, more: Seq<Seq<char>>, x: Seq<char>)
    ensures
        join_lines(Seq::empty()) == Seq::<char>::empty(),
        join_lines(seq![x]) == x,
        lines.len() > 0 ==> join_lines(lines.push(x)) == join_lines(lines) + "\n"@ + x,
        lines.len() > 0 && more.len() > 0 ==> join_lines(lines + more) == join_lines(lines) + "\n"@ + join_lines(more),
    decreases more.len(),
{
    assert(lines.push(x).drop_last() =~= lines);
    if lines.len() > 0 && more.len() > 1 {
        let m = more.drop_last();
        lemma_join_lines(lines, m, x);
        assert((lines + more).drop_last() =~= lines + m);
        assert(join_lines(lines + more) == join_lines(lines + m) + "\n"@ + more.last());
        assert(join_lines(more) == join_lines(m) + "\n"@ + more.last());
        assert(join_lines(lines + more) =~= join_lines(lines) + "\n"@ + join_lines(more));
    } else if lines.len() > 0 && more.len() == 1 {
        assert(lines + more =~= lines.push(more[0]));
        assert(lines.push(more[0]).drop_last() =~= lines);
        assert(join_lines(more) == more[0]);
    }
}

/// Joins the details of the ballots into one text, one per line.
pub fn join_details(details: &Vec<String>) -> (res: String)
    ensures
        res@ == join_lines(details@.map_values(|s: String| s@)),
{
    let ghost lines = details@.map_values(|s: String| s@);
    let mut res = String::new();
    let mut i: usize = 0;
    while i < details.len()
        invariant
            i <= details.len(),
            lines == details@.map_values(|s: String| s@),
            res@ == join_lines(lines.take(i as int)),
        decreases details.len() - i,
    {
        assert(lines.take(i + 1).drop_last() =~= lines.take(i as int));
        if i > 0 {
            res.append("\n");
        } else {
            assert(lines.take(1) =~= seq![lines[0]]);
            assert(res@ =~= Seq::<char>::empty());
        }
        res.append(details[i].as_str());
        i = i + 1;
    }
    assert(lines.take(i as int) =~= lines);
    res
}

/// The detail line of a ballot: who voted for whom.
pub open spec fn ballot_detail_spec(voter: Seq<char>, target: Seq<char>) -> Seq<char> {
    voter + " -> "@ + target
}

/// A player's ballot when the player picked the `x`-th candidate: the
/// detail line (ending with a line break) and the id voted for.
pub fn human_ballot(voter: &str, list: &Vec<VoteEntry>, x: usize) -> (res: (String, usize))
    requires
        x < list.len(),
    ensures
        res.0@ == ballot_detail_spec(voter@, list@[x as int].1@) + "\n"@,
        res.1 == list@[x as int].0,
{
    let mut d = String::from_str(voter);
    d.append(" -> ");
    d.append(list[x].1.as_str());
    d.append("\n");
    (d, list[x].0)
}

/// The names of the candidates, in order.
pub fn candidate_names(list: &Vec<VoteEntry>) -> (res: Vec<String>)
    ensures
        res@.map_values(|s: String| s@) == entries_view(list@).map_values(|e: (usize, Seq<char>)| e.1),
{
    let mut res: Vec<String> = Vec::new();
    let mut i: usize = 0;
    while i < list.len()
        invariant
            i <= list.len(),
            res.len() == i,
            forall|j: int| 0 <= j < i ==> (#[trigger] res@[j])@ == list@[j].1@,
        decreases list.len() - i,
    {
        res.push(list[i].1.clone());
        i = i + 1;
    }
    assert(res@.map_values(|s: String| s@) =~= entries_view(list@).map_values(|e: (usize, Seq<char>)| e.1));
    res
}

/// What the voters are asked when a vote is tied.
pub fn revote_prompt() -> (s: String)
    ensures
        s@ == "请在平票玩家中再次投票。"@,
{
    String::from_str("请在平票玩家中再次投票。")
}

/// What the village is asked when it sentences a player.
pub fn court_prompt() -> (s: String)
    ensures
        s@ == "选择处决对象"@,
{
    String::from_str("选择处决对象")
}

/// Whether a seat holds a player who is not alive.
pub open spec fn is_out(s: Seat) -> bool {
    s.status != LifeStatus::Alive
}

/// The order of a day's talk: the living players speak in seat order; the
/// others only listen.
pub fn chat_order(players: &Vec<Seat>) -> (res: (Vec<usize>, Vec<usize>))
    ensures
        res.0@ == picks(players@, |s: Seat| is_living(s)),
        res.1@ == picks(players@, |s: Seat| is_out(s)),
{
    let speakers = living_seats(players);
    let out = seats_where(players, |s: &Seat| -> (b: bool)
        ensures b == is_out(*s)
        { s.status != LifeStatus::Alive },
        Ghost(|s: Seat| is_out(s)));
    (speakers, out)
}

/// Who hears the words of the `k`-th speaker: the listeners, the earlier
/// speakers, then the later ones.
pub open spec fn chat_recipients_spec(speakers: Seq<usize>, listeners: Seq<usize>, k: int) -> Seq<usize> {
    listeners + speakers.take(k) + speakers.skip(k + 1)
}

/// Who hears the words of the `k`-th speaker: the listeners, the earlier
/// speakers, then the later ones.
pub fn chat_recipients(speakers: &Vec<usize>, listeners: &Vec<usize>, k: usize) -> (res: Vec<usize>)
    requires
        k < speakers.len(),
    ensures
        res@ == chat_recipients_spec(speakers@, listeners@, k as int),
{
    let mut res: Vec<usize> = Vec::new();
    let mut i: usize = 0;
    while i < listeners.len()
        invariant
            i <= listeners.len(),
            res@ == listeners@.take(i as int),
        decreases listeners.len() - i,
    {
        res.push(listeners[i]);
        assert(res@ =~= listeners@.take(i + 1));
        i = i + 1;
    }
    assert(listeners@.take(i as int) =~= listeners@);
    let mut j: usize = 0;
    while j < speakers.len()
        invariant
            j <= speakers.len(),
            k < speakers.len(),
            res@ == listeners@ + speakers@.take(if j <= k { j as int } else { k as int })
                + speakers@.subrange(if j <= k + 1 { k + 1 } else { j as int }, if j <= k + 1 { k + 1 } else { j as int })
                + (if j <= k + 1 { Seq::<usize>::empty() } else { speakers@.subrange(k + 1, j as int) }),
        decreases speakers.len() - j,
    {
        if j != k {
            res.push(speakers[j]);
        }
        j = j + 1;
        assert(res@ =~= listeners@ + speakers@.take(if j <= k { j as int } else { k as int })
                + speakers@.subrange(if j <= k + 1 { k + 1 } else { j as int }, if j <= k + 1 { k + 1 } else { j as int })
                + (if j <= k + 1 { Seq::<usize>::empty() } else { speakers@.subrange(k + 1, j as int) }));
    }
    assert(res@ =~= chat_recipients_spec(speakers@, listeners@, k as int));
    res
}

/// Everyone but the speaker hears each speech of a day's talk: when the
/// living players speak in seat order and the others listen, the `k`-th
/// speaker's words reach every other player and not the speaker.
pub proof fn lemma_chat_reaches_everyone_else(players: Seq<Seat>, k: int, i: int)
    requires
        players.len() <= usize::MAX,
        0 <= k < picks(players, |s: Seat| is_living(s)).len(),
        0 <= i < players.len(),
    ensures
        chat_recipients_spec(picks(players, |s: Seat| is_living(s)), picks(players, |s: Seat| is_out(s)), k).contains(i as usize)
            <==> i != picks(players, |s: Seat| is_living(s))[k],
{
    let sp = picks(players, |s: Seat| is_living(s));
    let ls = picks(players, |s: Seat| is_out(s));
    lemma_picks(players, |s: Seat| is_living(s));
    lemma_picks(players, |s: Seat| is_out(s));
    let r = chat_recipients_spec(sp, ls, k);
    assert(r =~= ls + sp.take(k) + sp.skip(k + 1));
    if i != sp[k] {
        if players[i].status == LifeStatus::Alive {
            assert(sp.contains(i as usize));
            let j = choose|j: int| 0 <= j < sp.len() && sp[j] == i as usize;
            if j < k {
                assert(r[ls.len() + j] == i as usize);
            } else {
                assert(j != k);
                assert(r[ls.len() + k + (j - k - 1)] == i as usize);
            }
        } else {
            assert(ls.contains(i as usize));
            let j = choose|j: int| 0 <= j < ls.len() && ls[j] == i as usize;
            assert(r[j] == i as usize);
        }
    } else {
        if r.contains(i as usize) {
            let j = choose|j: int| 0 <= j < r.len() && r[j] == i as usize;
            if j < ls.len() {
                assert(ls[j] == i as usize);
                assert(players[ls[j] as int].status != LifeStatus::Alive);
            } else if j < ls.len() + k {
                assert(sp[j - ls.len()] == i as usize);
                assert(sp[j - ls.len()] < sp[k]);
            } else {
                assert(sp[j - ls.len() + 1] == i as usize);
                assert(sp[k] < sp[j - ls.len() + 1]);
            }
        }
    }
}

/// What one round of ballots leads to: a winner, or the candidates tied
/// with the most ballots, who are voted on again.
pub enum VoteStep {
    Decided(usize),
    Again(Vec<VoteEntry>),
}

/// Takes one round of ballots, which must not be empty: the candidates
/// with the most ballots go on; when that leaves one candidate, that
/// candidate wins.
pub fn vote_round(list: &Vec<VoteEntry>, ballots: Vec<usize>) -> (res: VoteStep)
    requires
        ballots.len() > 0,
    ensures
        runoff_spec(entries_view(list@), ballots@).len() == 1 ==>
            res == VoteStep::Decided(runoff_spec(entries_view(list@), ballots@)[0].0),
        runoff_spec(entries_view(list@), ballots@).len() != 1 ==>
            (res matches VoteStep::Again(r) && entries_view(r@) == runoff_spec(entries_view(list@), ballots@)),
        list@.len() != 1 ==> vote_result(entries_view(list@), seq![ballots@]) == (match res {
            VoteStep::Decided(x) => Some(x),
            VoteStep::Again(_) => None,
        }),
        forall|rest: Seq<Seq<usize>>| list@.len() != 1 ==>
            #[trigger] vote_result(entries_view(list@), seq![ballots@] + rest) == (match res {
                VoteStep::Decided(x) => Some(x),
                VoteStep::Again(r) => vote_result(entries_view(r@), rest),
            }),
{
    let ghost b = ballots@;
    let next = runoff(list, ballots);
    proof {
        assert forall|rest: Seq<Seq<usize>>| list@.len() != 1 implies
            #[trigger] vote_result(entries_view(list@), seq![b] + rest)
                == vote_result(runoff_spec(entries_view(list@), b), rest) by {
            assert((seq![b] + rest)[0] == b);
            assert((seq![b] + rest).drop_first() =~= rest);
        }
        assert(seq![b] =~= seq![b] + Seq::<Seq<usize>>::empty());
    }
    if next.len() == 1 {
        VoteStep::Decided(next[0].0)
    } else {
        VoteStep::Again(next)
    }
}

/// The result of a vote held over the given rounds of ballots: the vote is
/// settled once one candidate is left; a round without ballots, or running
/// out of rounds, leaves it open.
pub open spec fn vote_result(list: Seq<(usize, Seq<char>)>, rounds: Seq<Seq<usize>>) -> Option<usize>
    decreases rounds.len(),
{
    if list.len() == 1 {
        Some(list[0].0)
    } else if rounds.len() == 0 || rounds[0].len() == 0 {
        None
    } else {
        vote_result(runoff_spec(list, rounds[0]), rounds.drop_first())
    }
}

/// Whether some candidate of `list` has the id `x`.
pub open spec fn lists_id(list: Seq<(usize, Seq<char>)>, x: usize) -> bool {
    exists|i: int| 0 <= i < list.len() && (#[trigger] list[i]).0 == x
}

/// A runoff keeps only candidates that were on the list, and each of them
/// got a ballot and at least as many ballots as anyone else.
pub proof fn lemma_runoff_keeps_leaders(list: Seq<(usize, Seq<char>)>, ballots: Seq<usize>)
    ensures
        forall|i: int| 0 <= i < runoff_spec(list, ballots).len() ==> list.contains(#[trigger] runoff_spec(list, ballots)[i]),
        forall|i: int, y: usize| 0 <= i < runoff_spec(list, ballots).len() ==>
            #[trigger] count_of(ballots, y) <= count_of(ballots, (#[trigger] runoff_spec(list, ballots)[i]).0),
        forall|i: int| 0 <= i < runoff_spec(list, ballots).len() ==>
            count_of(ballots, (#[trigger] runoff_spec(list, ballots)[i]).0) > 0,
        runoff_spec(list, ballots).len() <= list.len(),
{
    broadcast use vstd::seq_lib::group_filter_ensures, Seq::lemma_filter_contains_rev;
    let r = runoff_spec(list, ballots);
    assert forall|i: int| 0 <= i < r.len() implies list.contains(#[trigger] r[i]) by {
        assert(r.contains(r[i]));
    }
    assert forall|i: int, y: usize| 0 <= i < r.len() implies
        #[trigger] count_of(ballots, y) <= count_of(ballots, (#[trigger] r[i]).0) by {
        assert(is_top(ballots, r[i].0));
    }
    assert forall|i: int| 0 <= i < r.len() implies count_of(ballots, (#[trigger] r[i]).0) > 0 by {
        assert(is_top(ballots, r[i].0));
    }
}

proof fn lemma_some_top(ballots: Seq<usize>)
    requires
        ballots.len() > 0,
    ensures
        exists|i: int| 0 <= i < ballots.len() && is_top(ballots, #[trigger] ballots[i]),
{
    let ghost m = max_nat_count(ballots, ballots.len() as int);
    lemma_max_nat_count(ballots, ballots.len() as int);
    let k = choose|k: int| 0 <= k < ballots.len() && count_of(ballots, #[trigger] ballots[k]) == m;
    assert forall|y: usize| #[trigger] count_of(ballots, y) <= count_of(ballots, ballots[k]) by {
        if count_of(ballots, y) > 0 {
            assert(ballots.contains(y));
            let j = choose|j: int| 0 <= j < ballots.len() && ballots[j] == y;
            assert(count_of(ballots, ballots[j]) <= m);
        }
    }
    assert(ballots.contains(ballots[k]));
    assert(is_top(ballots, ballots[k]));
}

spec fn max_nat_count(ballots: Seq<usize>, n: int) -> nat
    decreases n,
{
    if n <= 0 {
        0
    } else {
        let m = max_nat_count(ballots, n - 1);
        let c = count_of(ballots, ballots[n - 1]);
        if c > m { c } else { m }
    }
}

proof fn lemma_max_nat_count(ballots: Seq<usize>, n: int)
    requires
        0 < n <= ballots.len(),
    ensures
        forall|i: int| 0 <= i < n ==> count_of(ballots, #[trigger] ballots[i]) <= max_nat_count(ballots, n),
        exists|i: int| 0 <= i < n && count_of(ballots, #[trigger] ballots[i]) == max_nat_count(ballots, n),
    decreases n,
{
    if n > 1 {
        lemma_max_nat_count(ballots, n - 1);
        if count_of(ballots, ballots[n - 1]) <= max_nat_count(ballots, n - 1) {
            let k = choose|k: int| 0 <= k < n - 1 && count_of(ballots, #[trigger] ballots[k]) == max_nat_count(ballots, n - 1);
            assert(count_of(ballots, ballots[k]) == max_nat_count(ballots, n));
        }
    } else {
        assert(ballots.contains(ballots[0]));
        assert(max_nat_count(ballots, 0) == 0);
        assert(count_of(ballots, ballots[0]) == max_nat_count(ballots, 1));
    }
}

/// When at least one ballot is cast and every ballot names a candidate on
/// the list, some candidate goes on to the next round.
pub proof fn lemma_runoff_nonempty(list: Seq<(usize, Seq<char>)>, ballots: Seq<usize>)
    requires
        ballots.len() > 0,
        forall|i: int| 0 <= i < ballots.len() ==> lists_id(list, #[trigger] ballots[i]),
    ensures
        runoff_spec(list, ballots).len() > 0,
{
    lemma_some_top(ballots);
    let k = choose|k: int| 0 <= k < ballots.len() && is_top(ballots, #[trigger] ballots[k]);
    assert(lists_id(list, ballots[k]));
    let i = choose|i: int| 0 <= i < list.len() && (#[trigger] list[i]).0 == ballots[k];
    broadcast use vstd::seq_lib::group_filter_ensures;
    assert(runoff_spec(list, ballots).contains(list[i]));
}

/// When every ballot names the same candidate `x`, exactly the candidates
/// with id `x` go on to the next round.
pub proof fn lemma_unanimous_runoff(list: Seq<(usize, Seq<char>)>, ballots: Seq<usize>, x: usize)
    requires
        ballots.len() > 0,
        forall|i: int| 0 <= i < ballots.len() ==> #[trigger] ballots[i] == x,
    ensures
        runoff_spec(list, ballots) == list.filter(|e: (usize, Seq<char>)| e.0 == x),
{
    assert(ballots =~= Seq::new(ballots.len(), |i: int| x));
    assert forall|y: usize| is_top(ballots, y) <==> y == x by {
        if y != x {
            assert(!ballots.contains(y));
        }
        assert(ballots.contains(x)) by { assert(ballots[0] == x); }
        assert forall|z: usize| #[trigger] count_of(ballots, z) <= count_of(ballots, x) by {
            if z != x {
                assert(!ballots.contains(z));
            }
        }
    }
    let f = |e: (usize, Seq<char>)| is_top(ballots, e.0);
    let g = |e: (usize, Seq<char>)| e.0 == x;
    assert(f =~= g);
}

/// A vote, however many rounds it takes, is only ever won by a candidate
/// of the original list.
pub proof fn lemma_vote_winner_is_candidate(list: Seq<(usize, Seq<char>)>, rounds: Seq<Seq<usize>>)
    ensures
        vote_result(list, rounds) matches Some(x) ==> lists_id(list, x),
    decreases rounds.len(),
{
    if list.len() == 1 {
        assert(list[0].0 == list[0].0);
    } else if rounds.len() > 0 && rounds[0].len() > 0 {
        let next = runoff_spec(list, rounds[0]);
        lemma_vote_winner_is_candidate(next, rounds.drop_first());
        lemma_runoff_keeps_leaders(list, rounds[0]);
        if vote_result(list, rounds) is Some {
            let x = vote_result(list, rounds)->0;
            let i = choose|i: int| 0 <= i < next.len() && (#[trigger] next[i]).0 == x;
            assert(list.contains(next[i]));
            let j = choose|j: int| 0 <= j < list.len() && list[j] == next[i];
            assert(list[j].0 == x);
        }
    }
}

} // verus!
