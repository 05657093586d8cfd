//! The judger (server) side of the game: the table of players, the set-up,
//! the phases of the game and the decision when it is over.

pub mod log;
pub mod roles;

use rand::seq::SliceRandom;
use vstd::prelude::*;
use vstd::string::*;
use vstd::multiset::Multiset;
use crate::judger::roles::{Identity, LifeStatus, Seat, identity_name};

verus! {

/// The judger's state: the players at the table, where to listen, the
/// roles in play with how many players get each, and the number of players
/// in all and of those played by the computer.
pub struct Judger {
    pub players: Vec<Seat>,
    pub bind_addr: String,
    pub enabled_roles: Vec<(Identity, usize)>,
    pub player_num: usize,
    pub ai_num: usize,
}

/// Whether a seat holds a living werewolf.
pub open spec fn is_living_wolf(s: Seat) -> bool {
    s.status == LifeStatus::Alive && s.role == Identity::Werewolf
}

/// Whether a seat holds a living villager.
pub open spec fn is_living_villager(s: Seat) -> bool {
    s.status == LifeStatus::Alive && s.role == Identity::Villager
}

/// Whether a seat holds a living player with a special role.
pub open spec fn is_living_clergy(s: Seat) -> bool {
    s.status == LifeStatus::Alive && s.role != Identity::Werewolf && s.role != Identity::Villager
}

/// Whether a seat holds a living player.
pub open spec fn is_living(s: Seat) -> bool {
    s.status == LifeStatus::Alive
}

/// The positions of the seats that satisfy `p`, in order.
pub open spec fn picks(players: Seq<Seat>, p: spec_fn(Seat) -> bool) -> Seq<usize>
    decreases players.len(),
{
    if players.len() == 0 {
        Seq::empty()
    } else {
        let r = picks(players.drop_last(), p);
        if p(players.last()) { r.push((players.len() - 1) as usize) } else { r }
    }
}

/// How a game stands after deaths have been dealt with.
#[derive(PartialEq, Eq, Structural, Clone, Copy, Debug)]
pub enum Outcome {
    Continue,
    WolvesWin,
    VillagersWin,
}

/// The outcome for a table: the werewolves win once they are at least as
/// many as the others alive, or once every special role is dead in a game
/// that has special roles; the village wins once no werewolf is alive.
pub open spec fn game_outcome(players: Seq<Seat>, enabled_len: nat) -> Outcome {
    let wolves = picks(players, |s: Seat| is_living_wolf(s)).len();
    let men = picks(players, |s: Seat| is_living_villager(s)).len();
    let clergies = picks(players, |s: Seat| is_living_clergy(s)).len();
    if wolves >= men + clergies || (enabled_len > 2 && clergies == 0) {
        Outcome::WolvesWin
    } else if wolves == 0 {
        Outcome::VillagersWin
    } else {
        Outcome::Continue
    }
}

/// What every player is told when the game ends.
pub open spec fn outcome_message(o: Outcome) -> Seq<char> {
    match o {
        Outcome::WolvesWin => "狼人胜利"@,
        Outcome::VillagersWin => "好人胜利"@,
        Outcome::Continue => Seq::empty(),
    }
}

impl Outcome {
    /// What every player is told; empty while the game goes on.
    pub fn message(&self) -> (s: String)
        ensures
            s@ == outcome_message(*self),
    {
        match self {
            Outcome::WolvesWin => String::from_str("狼人胜利"),
            Outcome::VillagersWin => String::from_str("好人胜利"),
            Outcome::Continue => String::new(),
        }
    }
}

/// The special roles a game can enable, in the order they are offered.
pub open spec fn special_roles() -> Seq<Identity> {
    seq![Identity::Hunter]
}

/// The roles in play when the special roles named in `chosen` are picked:
/// those special roles in the order they are offered, then villagers and
/// werewolves, each with no players yet.
pub open spec fn enabled_spec(chosen: Seq<Seq<char>>) -> Seq<(Identity, usize)> {
    special_roles().filter(|r: Identity| chosen.contains(identity_name(r))).map_values(|r: Identity| (r, 0usize))
        + seq![(Identity::Villager, 0usize), (Identity::Werewolf, 0usize)]
}

/// The sum of the player counts of the roles in play.
pub open spec fn role_total(roles: Seq<(Identity, usize)>) -> nat
    decreases roles.len(),
{
    if roles.len() == 0 { 0 } else { role_total(roles.drop_last()) + roles.last().1 as nat }
}

/// Whether the seats are numbered 1, 2, ... in order.
pub open spec fn ids_in_order(players: Seq<Seat>) -> bool {
    forall|i: int| 0 <= i < players.len() ==> (#[trigger] players[i]).id == i + 1
}

/// The positions of the seats for which `keep` holds, in order; `keep`
/// computes the predicate `p`.
pub(crate) fn seats_where(players: &Vec<Seat>, keep: impl Fn(&Seat) -> bool, Ghost(p): Ghost<spec_fn(Seat) -> bool>) -> (res: Vec<usize>)
    requires
        forall|s: &Seat| #[trigger] keep.requires((s,)),
        forall|s: &Seat, b: bool| keep.ensures((s,), b) ==> b == p(*s),
    ensures
        res@ == picks(players@, p),
{
    let mut res: Vec<usize> = Vec::new();
    let mut i: usize = 0;
    while i < players.len()
        invariant
            i <= players.len(),
            forall|s: &Seat| #[trigger] keep.requires((s,)),
            forall|s: &Seat, b: bool| keep.ensures((s,), b) ==> b == p(*s),
            res@ == picks(players@.take(i as int), p),
        decreases players.len() - i,
    {
        assert(players@.take(i + 1).drop_last() =~= players@.take(i as int));
        if keep(&players[i]) {
            res.push(i);
        }
        i = i + 1;
    }
    assert(players@.take(i as int) =~= players@);
    res
}

pub(crate) fn seats_where_living_wolf(players: &Vec<Seat>) -> (res: Vec<usize>)
    ensures
        res@ == picks(players@, |s: Seat| is_living_wolf(s)),
{
    seats_where(players, |s: &Seat| -> (b: bool)
        ensures b == is_living_wolf(*s)
        { s.status == LifeStatus::Alive && s.role == Identity::Werewolf },
        Ghost(|s: Seat| is_living_wolf(s)))
}

/// The positions of the living players, in order.
pub fn living_seats(players: &Vec<Seat>) -> (res: Vec<usize>)
    ensures
        res@ == picks(players@, |s: Seat| is_living(s)),
{
    seats_where(players, |s: &Seat| -> (b: bool)
        ensures b == is_living(*s)
        { s.status == LifeStatus::Alive },
        Ghost(|s: Seat| is_living(s)))
}

/// The roles to hand out: each role in play repeated as many times as
/// players get it, in the order of the roles in play.
pub open spec fn expand_spec(roles: Seq<(Identity, usize)>) -> Seq<Identity>
    decreases roles.len(),
{
    if roles.len() == 0 {
        Seq::empty()
    } else {
        expand_spec(roles.drop_last()) + Seq::new(roles.last().1 as nat, |k: int| roles.last().0)
    }
}

/// How many players the roles in play give the role `r`.
pub open spec fn role_count(roles: Seq<(Identity, usize)>, r: Identity) -> nat
    decreases roles.len(),
{
    if roles.len() == 0 {
        0
    } else {
        role_count(roles.drop_last(), r) + if roles.last().0 == r { roles.last().1 as nat } else { 0 }
    }
}

/// The roles of the seats, in seat order.
pub open spec fn seat_roles(players: Seq<Seat>) -> Seq<Identity> {
    players.map_values(|s: Seat| s.role)
}

/// Puts the elements of `v` in a random order with `rand`'s
/// `SliceRandom::shuffle` and the thread-local generator. The shuffle only
/// swaps elements, so the same elements come back, as many times each; the
/// order is left unsaid, as it depends on chance.
#[verifier::external_body]
fn shuffle_roles(v: &mut Vec<Identity>)
    ensures
        final(v)@.to_multiset() == old(v)@.to_multiset(),
        final(v)@.len() == old(v)@.len(),
{
    v.shuffle(&mut rand::thread_rng());
}

/// The roles to hand out, each role in play repeated as many times as
/// players get it.
pub fn expand_roles(roles: &Vec<(Identity, usize)>) -> (res: Vec<Identity>)
    requires
        role_total(roles@) <= usize::MAX,
    ensures
        res@ == expand_spec(roles@),
{
    let mut res: Vec<Identity> = Vec::new();
    let mut i: usize = 0;
    while i < roles.len()
        invariant
            i <= roles.len(),
            res@ == expand_spec(roles@.take(i as int)),
            role_total(roles@) <= usize::MAX,
        decreases roles.len() - i,
    {
        let (r, num) = roles[i];
        assert(roles@.take(i + 1).drop_last() =~= roles@.take(i as int));
        let ghost base = res@;
        proof { lemma_expand_len(roles@.take(i as int)); lemma_role_total_prefix(roles@, i + 1); }
        let mut j: usize = 0;
        while j < num
            invariant
                j <= num,
                res@ == base + Seq::new(j as nat, |k: int| r),
            decreases num - j,
        {
            res.push(r);
            j = j + 1;
            assert(res@ =~= base + Seq::new(j as nat, |k: int| r));
        }
        i = i + 1;
    }
    assert(roles@.take(i as int) =~= roles@);
    res
}

proof fn lemma_expand_len(roles: Seq<(Identity, usize)>)
    ensures
        expand_spec(roles).len() == role_total(roles),
    decreases roles.len(),
{
    if roles.len() > 0 {
        lemma_expand_len(roles.drop_last());
    }
}

proof fn lemma_role_total_prefix(roles: Seq<(Identity, usize)>, k: int)
    requires
        0 <= k <= roles.len(),
    ensures
        role_total(roles.take(k)) <= role_total(roles),
    decreases roles.len(),
{
    if k < roles.len() {
        assert(roles.drop_last().take(k) =~= roles.take(k));
        lemma_role_total_prefix(roles.drop_last(), k);
    } else {
        assert(roles.take(k) =~= roles);
    }
}

/// Among the roles handed out, each role appears as many times as the roles
/// in play give it.
pub proof fn lemma_expand_counts(roles: Seq<(Identity, usize)>, r: Identity)
    ensures
        expand_spec(roles).to_multiset().count(r) == role_count(roles, r),
    decreases roles.len(),
{
    broadcast use vstd::seq_lib::lemma_multiset_commutative;
    broadcast use vstd::multiset::group_multiset_axioms;
    broadcast use vstd::seq_lib::group_to_multiset_ensures;
    if roles.len() > 0 {
        lemma_expand_counts(roles.drop_last(), r);
        lemma_repeat_count(roles.last().0, roles.last().1 as nat, r);
        let a = expand_spec(roles.drop_last());
        let b = Seq::new(roles.last().1 as nat, |k: int| roles.last().0);
        assert(expand_spec(roles) == a + b);
        assert((a + b).to_multiset() =~= a.to_multiset().add(b.to_multiset()));
    } else {
        assert(!expand_spec(roles).contains(r));
    }
}

proof fn lemma_repeat_count(x: Identity, n: nat, r: Identity)
    ensures
        Seq::new(n, |k: int| x).to_multiset().count(r) == if x == r { n } else { 0 },
    decreases n,
{
    broadcast use vstd::seq_lib::group_to_multiset_ensures;
    broadcast use vstd::multiset::group_multiset_axioms;
    if n > 0 {
        lemma_repeat_count(x, (n - 1) as nat, r);
        assert(Seq::new(n, |k: int| x) =~= Seq::new((n - 1) as nat, |k: int| x).push(x));
    } else {
        assert(Seq::new(n, |k: int| x) =~= Seq::<Identity>::empty());
    }
}

/// Whether the seats stand in order of their ids.
pub open spec fn sorted_by_id(players: Seq<Seat>) -> bool {
    forall|i: int, j: int| 0 <= i < j < players.len() ==> players[i].id <= players[j].id
}

/// Whether no two seats have the same id.
pub open spec fn ids_distinct(players: Seq<Seat>) -> bool {
    seat_ids(players).no_duplicates()
}

/// The ids of the seats, in seat order.
pub open spec fn seat_ids(players: Seq<Seat>) -> Seq<usize> {
    players.map_values(|s: Seat| s.id)
}

/// A seat with its role left out: who sits there and whether alive.
pub open spec fn without_role(s: Seat) -> Seat {
    Seat { role: Identity::Raw, ..s }
}

/// The seats with their roles left out.
pub open spec fn seats_without_roles(players: Seq<Seat>) -> Seq<Seat> {
    players.map_values(|s: Seat| without_role(s))
}

/// Two sequences with the same elements, counted with repeats, keep the
/// same elements when each element is mapped.
pub proof fn lemma_map_multiset<B>(s1: Seq<Seat>, s2: Seq<Seat>, f: spec_fn(Seat) -> B)
    requires
        s1.to_multiset() == s2.to_multiset(),
    ensures
        s1.map_values(f).to_multiset() == s2.map_values(f).to_multiset(),
    decreases s1.len(),
{
    broadcast use vstd::seq_lib::group_to_multiset_ensures;
    broadcast use vstd::multiset::group_multiset_axioms;
    if s1.len() == 0 {
        assert(s2.to_multiset().len() == 0);
        assert(s2.len() == 0);
        assert(s1.map_values(f) =~= s2.map_values(f));
    } else {
        let x = s1.last();
        assert(s1.to_multiset().contains(x)) by {
            assert(s1.drop_last().push(x) =~= s1);
        }
        assert(s2.contains(x));
        let k = choose|k: int| 0 <= k < s2.len() && s2[k] == x;
        let r1 = s1.drop_last();
        let r2 = s2.remove(k);
        assert(r1.push(x) =~= s1);
        assert(r1.to_multiset() =~= s1.to_multiset().remove(x));
        assert(r2.to_multiset() =~= s2.to_multiset().remove(x));
        lemma_map_multiset(r1, r2, f);
        assert(s1.map_values(f) =~= r1.map_values(f).push(f(x)));
        assert(s2.map_values(f).remove(k) =~= r2.map_values(f));
        assert(s2.map_values(f)[k] == f(x));
        assert(r2.map_values(f).to_multiset() =~= s2.map_values(f).to_multiset().remove(f(x)));
        assert(s2.map_values(f).to_multiset().contains(f(x)));
    }
}

fn min_id_index(v: &Vec<Seat>) -> (k: usize)
    requires
        v.len() > 0,
    ensures
        k < v.len(),
        forall|j: int| 0 <= j < v.len() ==> v@[k as int].id <= v@[j].id,
        forall|j: int| 0 <= j < k ==> v@[k as int].id < v@[j].id,
{
    let mut k: usize = 0;
    let mut i: usize = 1;
    while i < v.len()
        invariant
            1 <= i <= v.len(),
            k < i,
            forall|j: int| 0 <= j < i ==> v@[k as int].id <= v@[j].id,
            forall|j: int| 0 <= j < k ==> v@[k as int].id < v@[j].id,
        decreases v.len() - i,
    {
        if v[i].id < v[k].id {
            k = i;
        }
        i = i + 1;
    }
    k
}

/// The seats with id `x`, in their order.
pub open spec fn with_id(players: Seq<Seat>, x: usize) -> Seq<Seat> {
    players.filter(|s: Seat| s.id == x)
}

/// Taking out the first seat with its id leaves the seats with that id but
/// the first one, and the seats with other ids as they were.
proof fn lemma_with_id_remove(s: Seq<Seat>, k: int, x: usize)
    requires
        0 <= k < s.len(),
        forall|j: int| 0 <= j < k ==> s[j].id != s[k].id,
    ensures
        s[k].id == x ==> with_id(s, x) == seq![s[k]] + with_id(s.remove(k), x),
        s[k].id != x ==> with_id(s, x) == with_id(s.remove(k), x),
{
    broadcast use Seq::filter_distributes_over_add;
    let pred = |t: Seat| t.id == x;
    let a = s.take(k);
    let b = s.skip(k + 1);
    assert(s =~= a + seq![s[k]] + b);
    assert(s.remove(k) =~= a + b);
    assert(seq![s[k]] =~= Seq::<Seat>::empty().push(s[k]));
    Seq::<Seat>::empty().lemma_filter_push(s[k], pred);
    assert(Seq::<Seat>::empty().filter(pred) =~= Seq::<Seat>::empty()) by {
        reveal(Seq::filter);
    }
    if s[k].id == x {
        assert(a.all(|t: Seat| !pred(t))) by {
            assert forall|j: int| 0 <= j < a.len() implies !pred(a[j]) by {
                assert(a[j] == s[j]);
            }
        }
        a.lemma_all_neg_filter_empty(pred);
        assert(a.filter(pred) =~= Seq::<Seat>::empty());
        assert(with_id(s, x) == a.filter(pred) + seq![s[k]] + b.filter(pred));
        assert(with_id(s.remove(k), x) == a.filter(pred) + b.filter(pred));
        assert(with_id(s, x) =~= seq![s[k]] + with_id(s.remove(k), x));
    } else {
        assert(with_id(s, x) == a.filter(pred) + Seq::<Seat>::empty() + b.filter(pred));
        assert(with_id(s, x) =~= with_id(s.remove(k), x));
    }
}

/// The seats sorted by id; seats with the same id keep their order.
pub fn sort_by_id(v: Vec<Seat>) -> (res: Vec<Seat>)
    ensures
        res@.to_multiset() == v@.to_multiset(),
        sorted_by_id(res@),
        forall|x: usize| #[trigger] with_id(res@, x) == with_id(v@, x),
        res.len() == v.len(),
{
    broadcast use vstd::seq_lib::group_to_multiset_ensures;
    broadcast use vstd::multiset::group_multiset_axioms;
    let ghost orig = v@;
    let mut src = v;
    let mut out: Vec<Seat> = Vec::new();
    assert(out@.to_multiset() =~= Multiset::<Seat>::empty());
    assert forall|x: usize| #[trigger] with_id(orig, x) == with_id(out@, x) + with_id(src@, x) by {
        assert(with_id(out@, x) =~= Seq::<Seat>::empty()) by { reveal(Seq::filter); }
        assert(with_id(out@, x) + with_id(src@, x) =~= with_id(src@, x));
    }
    while src.len() > 0
        invariant
            out@.to_multiset().add(src@.to_multiset()) == orig.to_multiset(),
            sorted_by_id(out@),
            forall|a: int, b: int| 0 <= a < out.len() && 0 <= b < src.len() ==> out@[a].id <= src@[b].id,
            out.len() + src.len() == orig.len(),
            forall|x: usize| #[trigger] with_id(orig, x) == with_id(out@, x) + with_id(src@, x),
        decreases src.len(),
    {
        let k = min_id_index(&src);
        let ghost before_src = src@;
        let ghost before_out = out@;
        let e = src.remove(k);
        assert(e == before_src[k as int]);
        assert(src@ == before_src.remove(k as int));
        proof { before_src.to_multiset_ensures(); before_out.to_multiset_ensures(); }
        assert(before_src.remove(k as int).to_multiset() =~= before_src.to_multiset().remove(before_src[k as int]));
        assert(before_src.contains(e));
        assert(before_src.to_multiset().contains(e));
        out.push(e);
        assert(out@ =~= before_out.push(e));
        assert(out@.to_multiset() =~= before_out.to_multiset().insert(e));
        assert(out@.to_multiset().add(src@.to_multiset()) =~= orig.to_multiset());
        assert forall|x: usize| #[trigger] with_id(orig, x) == with_id(out@, x) + with_id(src@, x) by {
            lemma_with_id_remove(before_src, k as int, x);
            before_out.lemma_filter_push(e, |t: Seat| t.id == x);
            if e.id == x {
                assert(with_id(out@, x) == with_id(before_out, x).push(e));
                assert(with_id(before_out, x) + with_id(before_src, x)
                    =~= with_id(out@, x) + with_id(src@, x));
            } else {
                assert(with_id(out@, x) == with_id(before_out, x));
            }
        }
        assert forall|a: int, b: int| 0 <= a < out.len() && 0 <= b < src.len() implies out@[a].id <= src@[b].id by {
            if b < k {
                assert(src@[b] == before_src[b]);
            } else {
                assert(src@[b] == before_src[b + 1]);
            }
        }
    }
    assert(src@.to_multiset() =~= Multiset::<Seat>::empty());
    assert(out@.to_multiset() =~= orig.to_multiset());
    assert forall|x: usize| #[trigger] with_id(out@, x) == with_id(orig, x) by {
        assert(src@ =~= Seq::<Seat>::empty());
        assert(with_id(src@, x) =~= Seq::<Seat>::empty()) by { reveal(Seq::filter); }
        assert(with_id(out@, x) + with_id(src@, x) =~= with_id(out@, x));
    }
    out
}

/// Whether a seat holds a player who died in the phase just played and has
/// not been dealt with yet.
pub open spec fn is_new_death(s: Seat) -> bool {
    s.status is NewDeath
}

/// The first seat position holding a fresh death, if any.
pub open spec fn first_new_death(players: Seq<Seat>) -> Option<usize> {
    let p = picks(players, |s: Seat| is_new_death(s));
    if p.len() == 0 { None } else { Some(p[0]) }
}

/// The players who hear of the death being dealt with: everyone who did
/// not die in this phase, in seat order, then the other fresh deaths.
pub open spec fn recipients_spec(players: Seq<Seat>) -> Seq<usize> {
    picks(players, |s: Seat| !is_new_death(s)) + picks(players, |s: Seat| is_new_death(s)).drop_first()
}

/// A measure of the deaths still to come: the fresh deaths plus twice the
/// living players. Each death dealt with lowers it.
pub open spec fn death_measure(players: Seq<Seat>) -> nat {
    picks(players, |s: Seat| is_new_death(s)).len() + 2 * picks(players, |s: Seat| is_living(s)).len()
}

/// The first living seat with the given id, if any.
pub open spec fn first_living_with_id(players: Seq<Seat>, id: usize) -> Option<usize> {
    let p = picks(players, |s: Seat| is_living(s) && s.id == id);
    if p.len() == 0 { None } else { Some(p[0]) }
}

/// The first seat with the given id, if any.
pub open spec fn first_with_id(players: Seq<Seat>, id: usize) -> Option<usize> {
    let p = picks(players, |s: Seat| s.id == id);
    if p.len() == 0 { None } else { Some(p[0]) }
}

/// The seat `players[i]` with a new life status.
pub open spec fn with_status(players: Seq<Seat>, i: int, st: LifeStatus) -> Seq<Seat> {
    players.update(i, Seat { status: st, ..players[i] })
}

/// Every position that `picks` gives is a seat that satisfies `p`, the
/// positions grow, and every such seat is picked.
pub proof fn lemma_picks(players: Seq<Seat>, p: spec_fn(Seat) -> bool)
    requires
        players.len() <= usize::MAX,
    ensures
        forall|k: int| 0 <= k < picks(players, p).len() ==> {
            &&& 0 <= #[trigger] picks(players, p)[k] < players.len()
            &&& p(players[picks(players, p)[k] as int])
        },
        forall|a: int, b: int| 0 <= a < b < picks(players, p).len() ==> picks(players, p)[a] < picks(players, p)[b],
        forall|i: int| 0 <= i < players.len() && p(#[trigger] players[i]) ==> picks(players, p).contains(i as usize),
        picks(players, p).len() <= players.len(),
    decreases players.len(),
{
    if players.len() > 0 {
        let q = players.drop_last();
        lemma_picks(q, p);
        let r = picks(q, p);
        assert forall|k: int| 0 <= k < picks(players, p).len() implies {
            &&& 0 <= #[trigger] picks(players, p)[k] < players.len()
            &&& p(players[picks(players, p)[k] as int])
        } by {
            if k < r.len() {
                assert(picks(players, p)[k] == r[k]);
                assert(players[r[k] as int] == q[r[k] as int]);
            } else {
                assert(picks(players, p)[k] == players.len() - 1);
                assert(players[players.len() - 1] == players.last());
            }
        }
        assert forall|a: int, b: int| 0 <= a < b < picks(players, p).len() implies picks(players, p)[a] < picks(players, p)[b] by {
            if b < r.len() {
                assert(picks(players, p)[a] == r[a]);
                assert(picks(players, p)[b] == r[b]);
            } else {
                assert(picks(players, p)[a] == r[a]);
                assert(r[a] < q.len());
            }
        }
        assert forall|i: int| 0 <= i < players.len() && p(#[trigger] players[i]) implies picks(players, p).contains(i as usize) by {
            if i < players.len() - 1 {
                assert(q[i] == players[i]);
                let k = choose|k: int| 0 <= k < r.len() && r[k] == i as usize;
                assert(picks(players, p)[k] == r[k]);
            } else {
                assert(picks(players, p)[r.len() as int] == i as usize);
            }
        }
    }
}

/// Changing one seat changes how many seats satisfy `p` by at most one,
/// as the seat's own answer changes.
pub proof fn lemma_picks_update(players: Seq<Seat>, p: spec_fn(Seat) -> bool, i: int, x: Seat)
    requires
        0 <= i < players.len(),
    ensures
        picks(players.update(i, x), p).len() + (if p(players[i]) { 1int } else { 0 })
            == picks(players, p).len() + (if p(x) { 1int } else { 0 }),
    decreases players.len(),
{
    let u = players.update(i, x);
    if i == players.len() - 1 {
        assert(u.drop_last() =~= players.drop_last());
    } else {
        assert(u.drop_last() =~= players.drop_last().update(i, x));
        lemma_picks_update(players.drop_last(), p, i, x);
        assert(u.last() == players.last());
    }
}

/// Changing one seat to one that `p` answers alike leaves the picks as
/// they were.
pub proof fn lemma_picks_same(players: Seq<Seat>, p: spec_fn(Seat) -> bool, i: int, x: Seat)
    requires
        0 <= i < players.len(),
        p(players[i]) == p(x),
    ensures
        picks(players.update(i, x), p) == picks(players, p),
    decreases players.len(),
{
    let u = players.update(i, x);
    if i == players.len() - 1 {
        assert(u.drop_last() =~= players.drop_last());
    } else {
        assert(u.drop_last() =~= players.drop_last().update(i, x));
        lemma_picks_same(players.drop_last(), p, i, x);
        assert(u.last() == players.last());
    }
}

/// Dealing with a fresh death lowers the measure of deaths still to come,
/// and so does a living player's fresh death.
pub proof fn lemma_death_measure_drops(players: Seq<Seat>, i: int, st: LifeStatus)
    requires
        0 <= i < players.len(),
        (players[i].status is NewDeath && st == LifeStatus::Dead)
            || (players[i].status == LifeStatus::Alive && st is NewDeath),
    ensures
        death_measure(with_status(players, i, st)) < death_measure(players),
{
    let x = Seat { status: st, ..players[i] };
    lemma_picks_update(players, |s: Seat| is_new_death(s), i, x);
    lemma_picks_update(players, |s: Seat| is_living(s), i, x);
}

/// The first pick is the first seat that satisfies `p`.
pub proof fn lemma_first_pick(players: Seq<Seat>, p: spec_fn(Seat) -> bool, i: int)
    requires
        0 <= i < players.len() <= usize::MAX,
        picks(players.take(i), p).len() == 0,
        p(players[i]),
    ensures
        picks(players, p).len() > 0,
        picks(players, p)[0] == i,
{
    let t = players.take(i + 1);
    assert(t.drop_last() =~= players.take(i));
    assert(t.last() == players[i]);
    assert(picks(t, p).len() == 1 && picks(t, p)[0] == i);
    lemma_picks_prefix(players, p, i + 1);
}

/// When no fresh death is left to deal with, no player is a fresh death.
pub proof fn lemma_no_new_death(players: Seq<Seat>)
    requires
        players.len() <= usize::MAX,
        first_new_death(players) is None,
    ensures
        forall|i: int| 0 <= i < players.len() ==> !is_new_death(#[trigger] players[i]),
{
    lemma_picks(players, |s: Seat| is_new_death(s));
    assert forall|i: int| 0 <= i < players.len() implies !is_new_death(#[trigger] players[i]) by {
        if is_new_death(players[i]) {
            assert(picks(players, |s: Seat| is_new_death(s)).contains(i as usize));
        }
    }
}

/// The table once the fresh death at seat `d` is dealt with: that player is
/// dead for good, and the living player with the id shot, if there is one,
/// dies now.
pub open spec fn after_death(players: Seq<Seat>, d: int, shot: Option<usize>) -> Seq<Seat> {
    let settled = with_status(players, d, LifeStatus::Dead);
    match shot {
        Some(id) => match first_living_with_id(settled, id) {
            Some(i) => with_status(settled, i as int, LifeStatus::NewDeath(roles::DeathReason::Gun)),
            None => settled,
        },
        None => settled,
    }
}

/// The table after fresh deaths are dealt with one after the other, the
/// first one left each time, with the shots taken in turn, until no fresh
/// death is left or the shots run out.
pub open spec fn death_run(players: Seq<Seat>, shots: Seq<Option<usize>>) -> Seq<Seat>
    decreases shots.len(),
{
    if shots.len() == 0 {
        players
    } else {
        match first_new_death(players) {
            None => players,
            Some(d) => death_run(after_death(players, d as int, shots[0]), shots.drop_first()),
        }
    }
}

/// One step of dealing with deaths: the measure drops, the dying player is
/// dead, and no other seat changes but for a living player with the id shot,
/// who becomes a fresh death; ids, names and roles stay.
proof fn lemma_after_death(players: Seq<Seat>, d: usize, shot: Option<usize>)
    requires
        players.len() <= usize::MAX,
        first_new_death(players) == Some(d),
    ensures
        after_death(players, d as int, shot).len() == players.len(),
        death_measure(after_death(players, d as int, shot)) < death_measure(players),
        d < players.len(),
        is_new_death(players[d as int]),
        after_death(players, d as int, shot)[d as int].status == LifeStatus::Dead,
        forall|i: int| 0 <= i < players.len() ==> {
            &&& (#[trigger] after_death(players, d as int, shot)[i]).id == players[i].id
            &&& after_death(players, d as int, shot)[i].username == players[i].username
            &&& after_death(players, d as int, shot)[i].role == players[i].role
        },
        forall|i: int| 0 <= i < players.len() && i != d ==> {
            ||| (#[trigger] after_death(players, d as int, shot)[i]).status == players[i].status
            ||| (players[i].status == LifeStatus::Alive
                && after_death(players, d as int, shot)[i].status == LifeStatus::NewDeath(roles::DeathReason::Gun)
                && shot == Some(players[i].id))
        },
{
    let p = picks(players, |s: Seat| is_new_death(s));
    lemma_picks(players, |s: Seat| is_new_death(s));
    assert(p.len() > 0 && p[0] == d);
    assert(0 <= p[0] < players.len());
    lemma_death_measure_drops(players, d as int, LifeStatus::Dead);
    let settled = with_status(players, d as int, LifeStatus::Dead);
    assert(settled.len() == players.len());
    match shot {
        Some(id) => match first_living_with_id(settled, id) {
            Some(i) => {
                let q = picks(settled, |s: Seat| is_living(s) && s.id == id);
                lemma_picks(settled, |s: Seat| is_living(s) && s.id == id);
                assert(q.len() > 0 && q[0] == i);
                assert(0 <= q[0] < settled.len());
                assert(settled[i as int].status == LifeStatus::Alive);
                assert(settled[i as int].id == id);
                lemma_death_measure_drops(settled, i as int, LifeStatus::NewDeath(roles::DeathReason::Gun));
            },
            None => {},
        },
        None => {},
    }
}

/// Dealing with fresh deaths one after the other, with at least as many
/// turns as the measure of deaths still to come, leaves no fresh death:
/// every player who was a fresh death is dead for good, the dead stay dead,
/// and a living player dies only by a shot at the player's id. No player's
/// id, name or role changes.
pub proof fn lemma_death_run(players: Seq<Seat>, shots: Seq<Option<usize>>)
    requires
        players.len() <= usize::MAX,
        shots.len() >= death_measure(players),
    ensures
        death_run(players, shots).len() == players.len(),
        first_new_death(death_run(players, shots)) is None,
        forall|i: int| 0 <= i < players.len() ==> !is_new_death(#[trigger] death_run(players, shots)[i]),
        forall|i: int| 0 <= i < players.len() ==> {
            &&& (#[trigger] death_run(players, shots)[i]).id == players[i].id
            &&& death_run(players, shots)[i].username == players[i].username
            &&& death_run(players, shots)[i].role == players[i].role
        },
        forall|i: int| 0 <= i < players.len() && is_new_death(players[i])
            ==> (#[trigger] death_run(players, shots)[i]).status == LifeStatus::Dead,
        forall|i: int| 0 <= i < players.len() && players[i].status == LifeStatus::Dead
            ==> (#[trigger] death_run(players, shots)[i]).status == LifeStatus::Dead,
        forall|i: int| 0 <= i < players.len() && players[i].status == LifeStatus::Alive ==> {
            ||| (#[trigger] death_run(players, shots)[i]).status == LifeStatus::Alive
            ||| (death_run(players, shots)[i].status == LifeStatus::Dead && shots.contains(Some(players[i].id)))
        },
    decreases shots.len(),
{
    let fin = death_run(players, shots);
    if shots.len() == 0 || first_new_death(players) is None {
        assert(fin == players);
        if shots.len() == 0 {
            assert(picks(players, |s: Seat| is_new_death(s)).len() == 0);
        }
        lemma_no_new_death(players);
    } else {
        let d = first_new_death(players)->0;
        let a = after_death(players, d as int, shots[0]);
        let rest = shots.drop_first();
        lemma_after_death(players, d, shots[0]);
        lemma_death_run(a, rest);
        assert(fin == death_run(a, rest));
        assert forall|i: int| 0 <= i < players.len() && players[i].status == LifeStatus::Alive implies {
            ||| (#[trigger] death_run(players, shots)[i]).status == LifeStatus::Alive
            ||| (death_run(players, shots)[i].status == LifeStatus::Dead && shots.contains(Some(players[i].id)))
        } by {
            assert(a[i].id == players[i].id);
            if a[i].status != LifeStatus::Alive {
                assert(shots[0] == Some(players[i].id));
                assert(shots.contains(shots[0]));
            } else if fin[i].status != LifeStatus::Alive {
                let k = choose|k: int| 0 <= k < rest.len() && rest[k] == Some(a[i].id);
                assert(shots[k + 1] == rest[k]);
            }
        }
        assert forall|i: int| 0 <= i < players.len() && is_new_death(players[i])
            implies (#[trigger] death_run(players, shots)[i]).status == LifeStatus::Dead by {
            if i != d {
                assert(a[i].status == players[i].status);
            }
        }
    }
}

fn first_new_death_of(players: &Vec<Seat>) -> (res: Option<usize>)
    ensures
        res matches Some(i) ==> i < players.len(),
        res == first_new_death(players@),
{
    let mut i: usize = 0;
    while i < players.len()
        invariant
            i <= players.len(),
            picks(players@.take(i as int), |s: Seat| is_new_death(s)).len() == 0,
        decreases players.len() - i,
    {
        assert(players@.take(i + 1).drop_last() =~= players@.take(i as int));
        if matches!(players[i].status, LifeStatus::NewDeath(_)) {
            proof { lemma_first_pick(players@, |s: Seat| is_new_death(s), i as int); }
            return Some(i);
        }
        i = i + 1;
    }
    assert(players@.take(i as int) =~= players@);
    None
}

fn first_living_with_id_of(players: &Vec<Seat>, id: usize) -> (res: Option<usize>)
    ensures
        res matches Some(i) ==> i < players.len(),
        res == first_living_with_id(players@, id),
{
    let ghost pick = |s: Seat| is_living(s) && s.id == id;
    let mut i: usize = 0;
    while i < players.len()
        invariant
            i <= players.len(),
            pick == (|s: Seat| is_living(s) && s.id == id),
            picks(players@.take(i as int), pick).len() == 0,
        decreases players.len() - i,
    {
        assert(players@.take(i + 1).drop_last() =~= players@.take(i as int));
        if players[i].status == LifeStatus::Alive && players[i].id == id {
            proof { lemma_first_pick(players@, pick, i as int); }
            return Some(i);
        }
        i = i + 1;
    }
    assert(players@.take(i as int) =~= players@);
    None
}

fn first_with_id_of(players: &Vec<Seat>, id: usize) -> (res: Option<usize>)
    ensures
        res matches Some(i) ==> i < players.len(),
        res == first_with_id(players@, id),
{
    let ghost pick = |s: Seat| s.id == id;
    let mut i: usize = 0;
    while i < players.len()
        invariant
            i <= players.len(),
            pick == (|s: Seat| s.id == id),
            picks(players@.take(i as int), pick).len() == 0,
        decreases players.len() - i,
    {
        assert(players@.take(i + 1).drop_last() =~= players@.take(i as int));
        if players[i].id == id {
            proof { lemma_first_pick(players@, pick, i as int); }
            return Some(i);
        }
        i = i + 1;
    }
    assert(players@.take(i as int) =~= players@);
    None
}

/// The picks of a prefix are a prefix of the picks.
pub proof fn lemma_picks_prefix(players: Seq<Seat>, p: spec_fn(Seat) -> bool, n: int)
    requires
        0 <= n <= players.len(),
    ensures
        picks(players.take(n), p).len() <= picks(players, p).len(),
        forall|k: int| 0 <= k < picks(players.take(n), p).len() ==>
            #[trigger] picks(players.take(n), p)[k] == picks(players, p)[k],
    decreases players.len(),
{
    if n < players.len() {
        assert(players.drop_last().take(n) =~= players.take(n));
        lemma_picks_prefix(players.drop_last(), p, n);
    } else {
        assert(players.take(n) =~= players);
    }
}

/// A phase of the game as the judger runs it.
#[derive(PartialEq, Eq, Structural, Clone, Copy, Debug)]
pub enum Phase {
    /// The night: the groups act.
    Night,
    /// The night's deaths are dealt with, then the judger checks whether the
    /// game is over.
    NightDeaths,
    /// The day: the living talk, then vote on whom to sentence.
    Day,
    /// The day's deaths are dealt with, then the judger checks whether the
    /// game is over.
    DayDeaths,
    /// The game is over: the tokens the computer's players used are summed up.
    Finished,
}

/// The phase after `p`; `over` is whether the game is over, which only
/// matters once deaths have been dealt with.
pub open spec fn next_phase_spec(p: Phase, over: bool) -> Phase {
    match p {
        Phase::Night => Phase::NightDeaths,
        Phase::NightDeaths => if over { Phase::Finished } else { Phase::Day },
        Phase::Day => Phase::DayDeaths,
        Phase::DayDeaths => if over { Phase::Finished } else { Phase::Night },
        Phase::Finished => Phase::Finished,
    }
}

/// The phase after `p`.
pub fn next_phase(p: Phase, over: bool) -> (q: Phase)
    ensures
        q == next_phase_spec(p, over),
{
    match p {
        Phase::Night => Phase::NightDeaths,
        Phase::NightDeaths => if over { Phase::Finished } else { Phase::Day },
        Phase::Day => Phase::DayDeaths,
        Phase::DayDeaths => if over { Phase::Finished } else { Phase::Night },
        Phase::Finished => Phase::Finished,
    }
}

/// The phase reached from `p` through the given answers to "is the game
/// over?", one per step.
pub open spec fn run_phases(p: Phase, overs: Seq<bool>) -> Phase
    decreases overs.len(),
{
    if overs.len() == 0 { p } else { run_phases(next_phase_spec(p, overs[0]), overs.drop_first()) }
}

/// The game only ends right after deaths have been dealt with, and only
/// when the game is over; once ended, it stays ended. A night's deaths are
/// always dealt with before the day, and a day's before the next night.
pub proof fn lemma_phase_order(p: Phase, over: bool)
    ensures
        next_phase_spec(p, over) == Phase::Finished ==>
            p == Phase::Finished || ((p == Phase::NightDeaths || p == Phase::DayDeaths) && over),
        p == Phase::Night ==> next_phase_spec(p, over) == Phase::NightDeaths,
        p == Phase::Day ==> next_phase_spec(p, over) == Phase::DayDeaths,
        next_phase_spec(p, over) == Phase::Day ==> p == Phase::NightDeaths,
        next_phase_spec(p, over) == Phase::Night ==> p == Phase::DayDeaths,
{
}

/// As long as the game is never over, the phases cycle through night, its
/// deaths, day and its deaths: from a night, four steps lead to the next
/// night.
pub proof fn lemma_game_cycles(overs: Seq<bool>)
    requires
        overs.len() == 4,
        forall|i: int| 0 <= i < 4 ==> !#[trigger] overs[i],
    ensures
        run_phases(Phase::Night, overs) == Phase::Night,
{
    assert(!overs[0] && !overs[1] && !overs[2] && !overs[3]);
    let o1 = overs.drop_first();
    let o2 = o1.drop_first();
    let o3 = o2.drop_first();
    let o4 = o3.drop_first();
    assert(o1[0] == overs[1] && o2[0] == overs[2] && o3[0] == overs[3]);
    assert(run_phases(Phase::Night, o4) == Phase::Night);
    assert(run_phases(Phase::DayDeaths, o3) == Phase::Night);
    assert(run_phases(Phase::Day, o2) == Phase::Night);
    assert(run_phases(Phase::NightDeaths, o1) == Phase::Night);
}

/// The sum of the first components.
pub open spec fn sum_first(costs: Seq<(u64, u64)>) -> nat
    decreases costs.len(),
{
    if costs.len() == 0 { 0 } else { sum_first(costs.drop_last()) + costs.last().0 as nat }
}

/// The sum of the second components.
pub open spec fn sum_second(costs: Seq<(u64, u64)>) -> nat
    decreases costs.len(),
{
    if costs.len() == 0 { 0 } else { sum_second(costs.drop_last()) + costs.last().1 as nat }
}

proof fn lemma_sum_prefix(costs: Seq<(u64, u64)>, k: int)
    requires
        0 <= k <= costs.len(),
    ensures
        sum_first(costs.take(k)) <= sum_first(costs),
        sum_second(costs.take(k)) <= sum_second(costs),
    decreases costs.len(),
{
    if k < costs.len() {
        assert(costs.drop_last().take(k) =~= costs.take(k));
        lemma_sum_prefix(costs.drop_last(), k);
    } else {
        assert(costs.take(k) =~= costs);
    }
}

/// The tokens all players used: (prompt tokens, completion tokens).
pub fn total_tokens(costs: &Vec<(u64, u64)>) -> (res: (u64, u64))
    requires
        sum_first(costs@) <= u64::MAX,
        sum_second(costs@) <= u64::MAX,
    ensures
        res.0 == sum_first(costs@),
        res.1 == sum_second(costs@),
{
    let mut inp: u64 = 0;
    let mut out: u64 = 0;
    let mut i: usize = 0;
    while i < costs.len()
        invariant
            i <= costs.len(),
            inp == sum_first(costs@.take(i as int)),
            out == sum_second(costs@.take(i as int)),
            sum_first(costs@) <= u64::MAX,
            sum_second(costs@) <= u64::MAX,
        decreases costs.len() - i,
    {
        assert(costs@.take(i + 1).drop_last() =~= costs@.take(i as int));
        proof { lemma_sum_prefix(costs@, i + 1); }
        inp = inp + costs[i].0;
        out = out + costs[i].1;
        i = i + 1;
    }
    assert(costs@.take(i as int) =~= costs@);
    (inp, out)
}

/// The outcome means what it says: the village wins only when no werewolf
/// is alive; the game goes on only while some werewolf lives and the
/// werewolves are fewer than the other living players; the werewolves win
/// only when they are at least as many as the others, or when a game with
/// special roles has no special role left alive.
pub proof fn lemma_outcome_meaning(players: Seq<Seat>, enabled_len: nat)
    ensures
        game_outcome(players, enabled_len) == Outcome::VillagersWin ==>
            picks(players, |s: Seat| is_living_wolf(s)).len() == 0,
        game_outcome(players, enabled_len) == Outcome::Continue ==>
            0 < picks(players, |s: Seat| is_living_wolf(s)).len()
                < picks(players, |s: Seat| is_living_villager(s)).len() + picks(players, |s: Seat| is_living_clergy(s)).len(),
        game_outcome(players, enabled_len) == Outcome::WolvesWin ==>
            picks(players, |s: Seat| is_living_wolf(s)).len()
                >= picks(players, |s: Seat| is_living_villager(s)).len() + picks(players, |s: Seat| is_living_clergy(s)).len()
            || (enabled_len > 2 && picks(players, |s: Seat| is_living_clergy(s)).len() == 0),
        picks(players, |s: Seat| is_living_wolf(s)).len() == 0 ==> game_outcome(players, enabled_len) != Outcome::Continue,
        picks(players, |s: Seat| is_living_wolf(s)).len()
            >= picks(players, |s: Seat| is_living_villager(s)).len() + picks(players, |s: Seat| is_living_clergy(s)).len()
            ==> game_outcome(players, enabled_len) == Outcome::WolvesWin,
{
}

/// After roles are handed out, each role is held by as many players as the
/// roles in play say.
pub proof fn lemma_assigned_role_counts(players: Seq<Seat>, roles: Seq<(Identity, usize)>, r: Identity)
    requires
        seat_roles(players).to_multiset() == expand_spec(roles).to_multiset(),
    ensures
        seat_roles(players).to_multiset().count(r) == role_count(roles, r),
{
    lemma_expand_counts(roles, r);
}

/// What dealing with fresh deaths calls for next.
pub enum DeathAction {
    /// No fresh death is left.
    AllDone,
    /// Deal with the player at seat `dying`: `recipients` hear of it, and
    /// `steps` are done in order.
    Deal { dying: usize, recipients: Vec<usize>, steps: Vec<roles::DeathStep> },
}

/// The views of a list of strings.
pub open spec fn views(v: Seq<String>) -> Seq<Seq<char>> {
    v.map_values(|s: String| s@)
}

fn contains_name(chosen: &Vec<String>, name: &String) -> (res: bool)
    ensures
        res == views(chosen@).contains(name@),
{
    let mut k: usize = 0;
    while k < chosen.len()
        invariant
            k <= chosen.len(),
            forall|j: int| 0 <= j < k ==> chosen@[j]@ != name@,
        decreases chosen.len() - k,
    {
        if chosen[k] == *name {
            assert(views(chosen@)[k as int] == name@);
            return true;
        }
        k = k + 1;
    }
    assert forall|j: int| 0 <= j < views(chosen@).len() implies views(chosen@)[j] != name@ by {
        assert(views(chosen@)[j] == chosen@[j]@);
    }
    false
}

/// The special roles a game can enable, in the order they are offered.
pub fn role_options() -> (v: Vec<Identity>)
    ensures
        v@ == special_roles(),
{
    let mut v = Vec::new();
    v.push(Identity::Hunter);
    assert(v@ =~= special_roles());
    v
}

impl Judger {
    /// A judger with no players and no roles set up yet.
    pub fn new() -> (j: Judger)
        ensures
            j.players@.len() == 0,
            j.bind_addr@.len() == 0,
            j.enabled_roles@.len() == 0,
            j.player_num == 0,
            j.ai_num == 0,
    {
        Judger {
            players: Vec::new(),
            bind_addr: String::new(),
            enabled_roles: Vec::new(),
            player_num: 0,
            ai_num: 0,
        }
    }

    /// Sets the roles in play from the names of the special roles picked.
    pub fn get_enabled(&mut self, chosen: &Vec<String>)
        ensures
            final(self).enabled_roles@ == enabled_spec(views(chosen@)),
            final(self).players == old(self).players,
            final(self).bind_addr == old(self).bind_addr,
            final(self).player_num == old(self).player_num,
            final(self).ai_num == old(self).ai_num,
    {
        let options = role_options();
        let ghost pred = |r: Identity| views(chosen@).contains(identity_name(r));
        let ghost f = |r: Identity| (r, 0usize);
        let mut res: Vec<(Identity, usize)> = Vec::new();
        let mut i: usize = 0;
        while i < options.len()
            invariant
                i <= options.len(),
                options@ == special_roles(),
                pred == (|r: Identity| views(chosen@).contains(identity_name(r))),
                f == (|r: Identity| (r, 0usize)),
                res@ == options@.take(i as int).filter(pred).map_values(f),
            decreases options.len() - i,
        {
            let r = options[i];
            let name = r.name();
            assert(options@.take(i + 1).drop_last() =~= options@.take(i as int));
            reveal_with_fuel(Seq::<_>::filter, 1);
            if contains_name(chosen, &name) {
                res.push((r, 0));
                assert(res@ =~= options@.take(i + 1).filter(pred).map_values(f));
            } else {
                assert(res@ =~= options@.take(i + 1).filter(pred).map_values(f));
            }
            i = i + 1;
        }
        assert(options@.take(i as int) =~= options@);
        res.push((Identity::Villager, 0));
        res.push((Identity::Werewolf, 0));
        assert(res@ =~= enabled_spec(views(chosen@)));
        self.enabled_roles = res;
    }

    /// Records that `num` players get the `i`-th role in play.
    pub fn set_role_count(&mut self, i: usize, num: usize)
        requires
            i < old(self).enabled_roles.len(),
            old(self).player_num + num <= usize::MAX,
        ensures
            final(self).enabled_roles@ == old(self).enabled_roles@.update(i as int, (old(self).enabled_roles@[i as int].0, num)),
            final(self).player_num == old(self).player_num + num,
            final(self).players == old(self).players,
            final(self).bind_addr == old(self).bind_addr,
            final(self).ai_num == old(self).ai_num,
    {
        let r = self.enabled_roles[i].0;
        self.enabled_roles.set(i, (r, num));
        self.player_num = self.player_num + num;
    }

    /// Records how many of the players the computer plays; they cannot be
    /// more than the players in all.
    pub fn set_ai_num(&mut self, ai_num: usize)
        requires
            ai_num <= old(self).player_num,
        ensures
            final(self).ai_num == ai_num,
            final(self).players == old(self).players,
            final(self).bind_addr == old(self).bind_addr,
            final(self).enabled_roles == old(self).enabled_roles,
            final(self).player_num == old(self).player_num,
    {
        self.ai_num = ai_num;
    }

    /// How many players join over the network: the players in all, less
    /// those the computer plays.
    pub fn human_num(&self) -> (n: usize)
        requires
            self.ai_num <= self.player_num,
        ensures
            n == self.player_num - self.ai_num,
    {
        self.player_num - self.ai_num
    }

    /// Seats the players: one seat per player, numbered from 1, everyone
    /// alive and without a role or a nickname yet. The players who join over
    /// the network take the first seats, the computer's players the rest.
    pub fn seat_players(&mut self)
        ensures
            final(self).players@.len() == old(self).player_num,
            ids_in_order(final(self).players@),
            forall|i: int| 0 <= i < final(self).players@.len() ==> {
                &&& (#[trigger] final(self).players@[i]).username@.len() == 0
                &&& final(self).players@[i].role == Identity::Raw
                &&& final(self).players@[i].status == LifeStatus::Alive
            },
            final(self).bind_addr == old(self).bind_addr,
            final(self).enabled_roles == old(self).enabled_roles,
            final(self).player_num == old(self).player_num,
            final(self).ai_num == old(self).ai_num,
    {
        let mut players: Vec<Seat> = Vec::new();
        let mut i: usize = 0;
        while i < self.player_num
            invariant
                i <= self.player_num,
                players@.len() == i,
                forall|k: int| 0 <= k < i ==> {
                    &&& (#[trigger] players@[k]).id == k + 1
                    &&& players@[k].username@.len() == 0
                    &&& players@[k].role == Identity::Raw
                    &&& players@[k].status == LifeStatus::Alive
                },
            decreases self.player_num - i,
        {
            players.push(Seat { id: i + 1, username: String::new(), role: Identity::Raw, status: LifeStatus::Alive });
            i = i + 1;
        }
        self.players = players;
    }

    /// Gives the player at seat position `i` a nickname.
    pub fn set_username(&mut self, i: usize, name: String)
        requires
            i < old(self).players.len(),
        ensures
            final(self).players@ == old(self).players@.update(i as int, Seat { username: name, ..old(self).players@[i as int] }),
            final(self).bind_addr == old(self).bind_addr,
            final(self).enabled_roles == old(self).enabled_roles,
            final(self).player_num == old(self).player_num,
            final(self).ai_num == old(self).ai_num,
    {
        let old_seat = &self.players[i];
        let seat = Seat { id: old_seat.id, username: name, role: old_seat.role, status: old_seat.status };
        self.players.set(i, seat);
    }

    /// Hands the roles out in seat order: the player at position `i` gets
    /// `roles[i]`.
    pub fn give_roles(&mut self, roles: &Vec<Identity>)
        requires
            roles.len() == old(self).players.len(),
        ensures
            final(self).players@.len() == old(self).players@.len(),
            forall|i: int| 0 <= i < final(self).players@.len() ==>
                #[trigger] final(self).players@[i] == (Seat { role: roles@[i], ..old(self).players@[i] }),
            final(self).bind_addr == old(self).bind_addr,
            final(self).enabled_roles == old(self).enabled_roles,
            final(self).player_num == old(self).player_num,
            final(self).ai_num == old(self).ai_num,
    {
        let mut i: usize = 0;
        while i < roles.len()
            invariant
                i <= roles.len(),
                roles.len() == self.players.len(),
                self.players@.len() == old(self).players@.len(),
                forall|k: int| 0 <= k < i ==> #[trigger] self.players@[k] == (Seat { role: roles@[k], ..old(self).players@[k] }),
                forall|k: int| i <= k < self.players@.len() ==> #[trigger] self.players@[k] == old(self).players@[k],
                self.bind_addr == old(self).bind_addr,
                self.enabled_roles == old(self).enabled_roles,
                self.player_num == old(self).player_num,
                self.ai_num == old(self).ai_num,
            decreases roles.len() - i,
        {
            let old_seat = &self.players[i];
            let seat = Seat { id: old_seat.id, username: old_seat.username.clone(), role: roles[i], status: old_seat.status };
            self.players.set(i, seat);
            i = i + 1;
        }
    }

    /// Hands the roles in play out at random: every player gets a role, and
    /// each role goes to as many players as the roles in play say. Then the
    /// players stand in order of their ids: the same players, each with the
    /// same id, nickname and life status as before.
    pub fn assign_role(&mut self)
        requires
            old(self).players.len() == role_total(old(self).enabled_roles@),
        ensures
            seat_roles(final(self).players@).to_multiset() == expand_spec(old(self).enabled_roles@).to_multiset(),
            seats_without_roles(final(self).players@).to_multiset() == seats_without_roles(old(self).players@).to_multiset(),
            final(self).players@.len() == old(self).players@.len(),
            sorted_by_id(final(self).players@),
            ids_distinct(old(self).players@) ==> forall|i: int, j: int| 0 <= i < j < final(self).players@.len()
                ==> final(self).players@[i].id < final(self).players@[j].id,
            final(self).bind_addr == old(self).bind_addr,
            final(self).enabled_roles == old(self).enabled_roles,
            final(self).player_num == old(self).player_num,
            final(self).ai_num == old(self).ai_num,
    {
        proof { lemma_expand_len(self.enabled_roles@); }
        let mut roles = expand_roles(&self.enabled_roles);
        shuffle_roles(&mut roles);
        let ghost before = self.players@;
        self.give_roles(&roles);
        let ghost given = self.players@;
        let mut seated: Vec<Seat> = Vec::new();
        std::mem::swap(&mut seated, &mut self.players);
        let sorted = sort_by_id(seated);
        self.players = sorted;
        proof {
            let fin = self.players@;
            lemma_map_multiset(fin, given, |s: Seat| s.role);
            lemma_map_multiset(fin, given, |s: Seat| without_role(s));
            lemma_map_multiset(fin, given, |s: Seat| s.id);
            assert(seat_roles(given) =~= roles@);
            assert(seat_roles(fin) =~= fin.map_values(|s: Seat| s.role));
            assert(seat_roles(given) =~= given.map_values(|s: Seat| s.role));
            assert(seats_without_roles(given) =~= seats_without_roles(before));
            assert(seats_without_roles(fin) =~= fin.map_values(|s: Seat| without_role(s)));
            assert(seats_without_roles(given) =~= given.map_values(|s: Seat| without_role(s)));
            assert(seat_ids(given) =~= seat_ids(before));
            assert(seat_ids(fin) =~= fin.map_values(|s: Seat| s.id));
            assert(seat_ids(given) =~= given.map_values(|s: Seat| s.id));
            if ids_distinct(before) {
                seat_ids(before).lemma_multiset_has_no_duplicates();
                assert forall|x: usize| seat_ids(fin).to_multiset().contains(x) implies seat_ids(fin).to_multiset().count(x) == 1 by {
                    assert(seat_ids(fin).to_multiset() == seat_ids(before).to_multiset());
                }
                seat_ids(fin).lemma_multiset_has_no_duplicates_conv();
                assert forall|i: int, j: int| 0 <= i < j < fin.len() implies fin[i].id < fin[j].id by {
                    assert(seat_ids(fin)[i] == fin[i].id);
                    assert(seat_ids(fin)[j] == fin[j].id);
                }
            }
        }
    }

    /// Deals with a fresh death once the player's last words, and a hunter's
    /// shot if any, are in: the player at seat `d` is dead for good, and the
    /// living player shot, if any, dies now. Each such step lowers the
    /// measure of deaths still to come, so dealing with deaths comes to an
    /// end.
    pub fn finish_death(&mut self, d: usize, shot: Option<usize>)
        requires
            first_new_death(old(self).players@) == Some(d),
            shot matches Some(id) ==> first_living_with_id(old(self).players@, id) is Some,
        ensures
            final(self).players@ == after_death(old(self).players@, d as int, shot),
            shot is None ==> final(self).players@ == with_status(old(self).players@, d as int, LifeStatus::Dead),
            shot matches Some(id) ==> final(self).players@ == with_status(
                with_status(old(self).players@, d as int, LifeStatus::Dead),
                first_living_with_id(with_status(old(self).players@, d as int, LifeStatus::Dead), id)->0 as int,
                LifeStatus::NewDeath(roles::DeathReason::Gun)),
            death_measure(final(self).players@) < death_measure(old(self).players@),
            final(self).bind_addr == old(self).bind_addr,
            final(self).enabled_roles == old(self).enabled_roles,
            final(self).player_num == old(self).player_num,
            final(self).ai_num == old(self).ai_num,
    {
        let ghost p0 = self.players@;
        let n = self.players.len();
        proof {
            lemma_picks(p0, |s: Seat| is_new_death(s));
        }
        self.settle_death(d);
        proof { lemma_death_measure_drops(p0, d as int, LifeStatus::Dead); }
        let ghost p1 = self.players@;
        match shot {
            Some(id) => {
                proof {
                    assert(p0[d as int].status is NewDeath);
                    lemma_picks_same(p0, |s: Seat| is_living(s) && s.id == id, d as int,
                        Seat { status: LifeStatus::Dead, ..p0[d as int] });
                    assert(first_living_with_id(p1, id) == first_living_with_id(p0, id));
                    let i = first_living_with_id(p1, id)->0;
                    lemma_picks(p1, |s: Seat| is_living(s) && s.id == id);
                    assert(p1[i as int].status == LifeStatus::Alive);
                    lemma_death_measure_drops(p1, i as int, LifeStatus::NewDeath(roles::DeathReason::Gun));
                }
                self.strike(id, roles::DeathReason::Gun);
            },
            None => {},
        }
    }

    /// What dealing with fresh deaths calls for next: nothing when none is
    /// left, which means no player is a fresh death any more; otherwise the
    /// first fresh death, who hears of it, and the steps for the player's
    /// role. `None` for a fresh death without a role.
    pub fn death_step(&self) -> (res: Option<DeathAction>)
        ensures
            res matches Some(DeathAction::AllDone) ==> first_new_death(self.players@) is None
                && forall|i: int| 0 <= i < self.players@.len() ==> !is_new_death(#[trigger] self.players@[i]),
            res matches Some(DeathAction::Deal { dying, recipients, steps }) ==>
                (first_new_death(self.players@) == Some(dying))
                && self.players@[dying as int].role != Identity::Raw
                && recipients@ == recipients_spec(self.players@)
                && steps@ == roles::death_steps_spec(roles::role_group_of(self.players@[dying as int].role)),
            res is None ==> (first_new_death(self.players@) matches Some(d)
                && self.players@[d as int].role == Identity::Raw),
    {
        let n = self.players.len();
        match self.next_dying() {
            None => {
                proof { lemma_no_new_death(self.players@); }
                Some(DeathAction::AllDone)
            },
            Some(d) => {
                proof { lemma_picks(self.players@, |s: Seat| is_new_death(s)); }
                let r = self.players[d].role;
                if r == Identity::Raw {
                    None
                } else {
                    let recipients = self.death_recipients(d);
                    let steps = roles::role_map(r).death_steps();
                    Some(DeathAction::Deal { dying: d, recipients, steps })
                }
            },
        }
    }

    /// Whether some living player has the given id.
    pub fn is_living_id(&self, id: usize) -> (b: bool)
        ensures
            b == first_living_with_id(self.players@, id) is Some,
    {
        first_living_with_id_of(&self.players, id).is_some()
    }

    /// The seat of the first fresh death still to deal with, if any.
    pub fn next_dying(&self) -> (res: Option<usize>)
        ensures
            res == first_new_death(self.players@),
    {
        first_new_death_of(&self.players)
    }

    /// The players who hear of the death at seat `d` (the first fresh death):
    /// everyone who did not die in this phase, in seat order, then the other
    /// fresh deaths.
    pub fn death_recipients(&self, d: usize) -> (res: Vec<usize>)
        requires
            first_new_death(self.players@) == Some(d),
        ensures
            res@ == recipients_spec(self.players@),
    {
        let n = self.players.len();
        let mut res = seats_where(&self.players, |s: &Seat| -> (b: bool)
            ensures b == !is_new_death(*s)
            { !matches!(s.status, LifeStatus::NewDeath(_)) },
            Ghost(|s: Seat| !is_new_death(s)));
        let ghost first_part = res@;
        let ghost gone = picks(self.players@, |s: Seat| is_new_death(s));
        proof {
            lemma_picks(self.players@, |s: Seat| is_new_death(s));
            assert(gone[0] == d);
            lemma_picks_prefix(self.players@, |s: Seat| is_new_death(s), d + 1);
            let t = self.players@.take(d + 1);
            let u = self.players@.take(d as int);
            lemma_picks(u, |s: Seat| is_new_death(s));
            lemma_picks_prefix(self.players@, |s: Seat| is_new_death(s), d as int);
            if picks(u, |s: Seat| is_new_death(s)).len() > 0 {
                assert(picks(u, |s: Seat| is_new_death(s))[0] == gone[0]);
                assert(false);
            }
            assert(t.drop_last() =~= u);
            assert(t.last() == self.players@[d as int]);
            assert(picks(t, |s: Seat| is_new_death(s)).len() == 1);
            assert(picks(t, |s: Seat| is_new_death(s)).drop_first() =~= Seq::<usize>::empty());
        }
        let mut k: usize = d + 1;
        while k < self.players.len()
            invariant
                d < k <= self.players.len(),
                first_new_death(self.players@) == Some(d),
                gone == picks(self.players@, |s: Seat| is_new_death(s)),
                res@ == first_part + picks(self.players@.take(k as int), |s: Seat| is_new_death(s)).drop_first(),
            decreases self.players.len() - k,
        {
            assert(self.players@.take(k + 1).drop_last() =~= self.players@.take(k as int));
            proof { lemma_picks_prefix(self.players@, |s: Seat| is_new_death(s), k as int); }
            assert(picks(self.players@.take(k as int), |s: Seat| is_new_death(s)).len() > 0) by {
                lemma_picks(self.players@.take(k as int), |s: Seat| is_new_death(s));
                assert(self.players@.take(k as int)[d as int] == self.players@[d as int]);
                lemma_picks(self.players@, |s: Seat| is_new_death(s));
            }
            if matches!(self.players[k].status, LifeStatus::NewDeath(_)) {
                res.push(k);
                assert(res@ =~= first_part + picks(self.players@.take(k + 1), |s: Seat| is_new_death(s)).drop_first());
            }
            k = k + 1;
        }
        assert(self.players@.take(k as int) =~= self.players@);
        res
    }

    /// Marks the player at seat `d` as dead for good.
    pub fn settle_death(&mut self, d: usize)
        requires
            d < old(self).players.len(),
        ensures
            final(self).players@ == with_status(old(self).players@, d as int, LifeStatus::Dead),
            final(self).bind_addr == old(self).bind_addr,
            final(self).enabled_roles == old(self).enabled_roles,
            final(self).player_num == old(self).player_num,
            final(self).ai_num == old(self).ai_num,
    {
        self.set_status(d, LifeStatus::Dead);
    }

    fn set_status(&mut self, i: usize, st: LifeStatus)
        requires
            i < old(self).players.len(),
        ensures
            final(self).players@ == with_status(old(self).players@, i as int, st),
            final(self).bind_addr == old(self).bind_addr,
            final(self).enabled_roles == old(self).enabled_roles,
            final(self).player_num == old(self).player_num,
            final(self).ai_num == old(self).ai_num,
    {
        let old_seat = &self.players[i];
        let seat = Seat { id: old_seat.id, username: old_seat.username.clone(), role: old_seat.role, status: st };
        self.players.set(i, seat);
    }

    /// The living player with the given id dies now, for the given reason;
    /// such a player must exist.
    pub fn strike(&mut self, id: usize, reason: roles::DeathReason)
        requires
            first_living_with_id(old(self).players@, id) is Some,
        ensures
            final(self).players@ == with_status(old(self).players@,
                first_living_with_id(old(self).players@, id)->0 as int, LifeStatus::NewDeath(reason)),
            final(self).bind_addr == old(self).bind_addr,
            final(self).enabled_roles == old(self).enabled_roles,
            final(self).player_num == old(self).player_num,
            final(self).ai_num == old(self).ai_num,
    {
        match first_living_with_id_of(&self.players, id) {
            Some(i) => self.set_status(i, LifeStatus::NewDeath(reason)),
            None => {},
        }
    }

    /// The player with the given id is sentenced to death by the village; if
    /// no seat has that id, nothing happens.
    pub fn execute(&mut self, id: usize)
        ensures
            first_with_id(old(self).players@, id) matches Some(i) ==>
                final(self).players@ == with_status(old(self).players@, i as int, LifeStatus::NewDeath(roles::DeathReason::Normal)),
            first_with_id(old(self).players@, id) is None ==> final(self).players@ == old(self).players@,
            final(self).bind_addr == old(self).bind_addr,
            final(self).enabled_roles == old(self).enabled_roles,
            final(self).player_num == old(self).player_num,
            final(self).ai_num == old(self).ai_num,
    {
        match first_with_id_of(&self.players, id) {
            Some(i) => self.set_status(i, LifeStatus::NewDeath(roles::DeathReason::Normal)),
            None => {},
        }
    }

    /// Splits the living players into werewolves, villagers and players
    /// with a special role; each list gives seat positions in order.
    pub fn devide(&self) -> (res: (Vec<usize>, Vec<usize>, Vec<usize>))
        ensures
            res.0@ == picks(self.players@, |s: Seat| is_living_wolf(s)),
            res.1@ == picks(self.players@, |s: Seat| is_living_villager(s)),
            res.2@ == picks(self.players@, |s: Seat| is_living_clergy(s)),
    {
        (
            seats_where_living_wolf(&self.players),
            seats_where(&self.players, |s: &Seat| -> (b: bool)
                ensures b == is_living_villager(*s)
                { s.status == LifeStatus::Alive && s.role == Identity::Villager },
                Ghost(|s: Seat| is_living_villager(s))),
            seats_where(&self.players, |s: &Seat| -> (b: bool)
                ensures b == is_living_clergy(*s)
                { s.status == LifeStatus::Alive && s.role != Identity::Werewolf && s.role != Identity::Villager },
                Ghost(|s: Seat| is_living_clergy(s))),
        )
    }

    /// Whether the game is over, and who won.
    pub fn is_over(&self) -> (o: Outcome)
        ensures
            o == game_outcome(self.players@, self.enabled_roles@.len()),
    {
        let (wolves, men, clergies) = self.devide();
        let others: u128 = men.len() as u128 + clergies.len() as u128;
        if wolves.len() as u128 >= others || (self.enabled_roles.len() > 2 && clergies.len() == 0) {
            Outcome::WolvesWin
        } else if wolves.len() == 0 {
            Outcome::VillagersWin
        } else {
            Outcome::Continue
        }
    }
}

} // verus!
