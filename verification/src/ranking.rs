//! Deriving a ranked leaderboard from a score table.
//!
//! The leaderboard lists one entry per score-table row, sorted by
//! points descending. Entries with equal points keep the order of the
//! table, which is the order in which the players first answered in
//! the cycle; the tie-break is therefore deterministic, and repeated
//! calls on the same table give the same list.

use vstd::prelude::*;

use crate::catalog::{Quiz, QuizView};
use crate::scores::{ScoreEntryView, ScoreTable};

verus! {

/// One leaderboard entry: a player and the points of the current cycle.
pub struct Player {
    pub id: String,
    pub quiz_id: String,
    pub points: u64,
}

/// The mathematical value of a [`Player`].
pub struct PlayerView {
    pub id: Seq<char>,
    pub quiz_id: Seq<char>,
    pub points: nat,
}

impl View for Player {
    type V = PlayerView;

    open spec fn view(&self) -> PlayerView {
        PlayerView { id: self.id@, quiz_id: self.quiz_id@, points: self.points as nat }
    }
}

impl DeepView for Player {
    type V = PlayerView;

    open spec fn deep_view(&self) -> PlayerView {
        self.view()
    }
}

impl Clone for Player {
    fn clone(&self) -> (res: Self)
        ensures
            res@ == self@,
    {
        Player { id: self.id.clone(), quiz_id: self.quiz_id.clone(), points: self.points }
    }
}

/// A point-in-time ranked snapshot of one quiz's current cycle.
pub struct Leaderboard {
    pub quiz: Quiz,
    pub list: Vec<Player>,
}

/// The mathematical value of a [`Leaderboard`].
pub struct LeaderboardView {
    pub quiz: QuizView,
    pub list: Seq<PlayerView>,
}

impl View for Leaderboard {
    type V = LeaderboardView;

    open spec fn view(&self) -> LeaderboardView {
        LeaderboardView { quiz: self.quiz@, list: self.list.deep_view() }
    }
}

impl Clone for Leaderboard {
    fn clone(&self) -> (res: Self)
        ensures
            res@ == self@,
    {
        let res = Leaderboard { quiz: self.quiz.clone(), list: self.list.clone() };
        proof {
            assert forall|i: int| 0 <= i < self.list.len() implies res.list@[i]@
                == self.list@[i]@ by {
                assert(cloned::<Player>(self.list[i], res.list[i]));
            }
            assert(res.list.deep_view() =~= self.list.deep_view());
        }
        res
    }
}

/// The leaderboard entry derived from one score-table row of `quiz_id`.
pub open spec fn player_of(e: ScoreEntryView, quiz_id: Seq<char>) -> PlayerView {
    PlayerView { id: e.player_id, quiz_id: quiz_id, points: e.points }
}

/// The leaderboard entries of a whole score table, in table order.
pub open spec fn players_of(s: Seq<ScoreEntryView>, quiz_id: Seq<char>) -> Seq<PlayerView> {
    Seq::new(s.len(), |i: int| player_of(s[i], quiz_id))
}

/// `x` placed into `s` after every entry with at least as many points:
/// the insertion step of a stable sort by points descending.
pub open spec fn insert_ranked(s: Seq<PlayerView>, x: PlayerView) -> Seq<PlayerView>
    decreases s.len(),
{
    if s.len() > 0 && s[0].points >= x.points {
        seq![s[0]] + insert_ranked(s.drop_first(), x)
    } else {
        seq![x] + s
    }
}

/// `s` sorted by points descending, stably: entries with equal points
/// keep their order in `s`.
pub open spec fn rank_seq(s: Seq<PlayerView>) -> Seq<PlayerView>
    decreases s.len(),
{
    if s.len() == 0 {
        Seq::empty()
    } else {
        insert_ranked(rank_seq(s.drop_last()), s.last())
    }
}

/// The ranked leaderboard list of a score table.
pub open spec fn ranked(s: Seq<ScoreEntryView>, quiz_id: Seq<char>) -> Seq<PlayerView> {
    rank_seq(players_of(s, quiz_id))
}

/// Points never increase along the list: sorted by points descending.
pub open spec fn ranked_order(s: Seq<PlayerView>) -> bool {
    forall|i: int, j: int| 0 <= i < j < s.len() ==> s[i].points >= s[j].points
}

/// Where `insert_ranked` puts its new entry: the index of the first
/// entry with strictly fewer points, or the length if there is none.
pub open spec fn insert_point(s: Seq<PlayerView>, x: PlayerView) -> int
    decreases s.len(),
{
    if s.len() > 0 && s[0].points >= x.points {
        1 + insert_point(s.drop_first(), x)
    } else {
        0
    }
}

proof fn lemma_insert_point(s: Seq<PlayerView>, x: PlayerView)
    ensures
        0 <= insert_point(s, x) <= s.len(),
        forall|j: int| 0 <= j < insert_point(s, x) ==> s[j].points >= x.points,
        insert_point(s, x) < s.len() ==> s[insert_point(s, x)].points < x.points,
        insert_ranked(s, x) == s.insert(insert_point(s, x), x),
    decreases s.len(),
{
    if s.len() > 0 && s[0].points >= x.points {
        lemma_insert_point(s.drop_first(), x);
        assert forall|j: int| 0 <= j < insert_point(s, x) implies s[j].points >= x.points by {
            if j > 0 {
                assert(s.drop_first()[j - 1] == s[j]);
            }
        }
        assert(insert_ranked(s, x) =~= s.insert(insert_point(s, x), x));
    } else {
        assert(insert_ranked(s, x) =~= s.insert(0, x));
    }
}

proof fn lemma_insert_ranked_sorted(s: Seq<PlayerView>, x: PlayerView)
    requires
        ranked_order(s),
    ensures
        ranked_order(insert_ranked(s, x)),
        insert_ranked(s, x).to_multiset() == s.to_multiset().insert(x),
{
    let ip = insert_point(s, x);
    lemma_insert_point(s, x);
    s.insert_ensures(ip, x);
    vstd::seq_lib::to_multiset_insert(s, ip, x);
    let r = insert_ranked(s, x);
    assert forall|i: int, j: int| 0 <= i < j < r.len() implies r[i].points >= r[j].points by {
        if j < ip {
        } else if i >= ip + 1 {
            assert(r[i] == s[i - 1]);
            assert(r[j] == s[j - 1]);
        } else if i < ip && j == ip {
            assert(r[i] == s[i]);
        } else if i < ip && j > ip {
            assert(r[j] == s[j - 1]);
            assert(s[i].points >= x.points);
            if ip < s.len() {
                assert(s[ip].points < x.points);
            }
        } else if i == ip && j > ip {
            assert(r[j] == s[j - 1]);
            if ip < s.len() {
                assert(s[ip].points < x.points);
            }
        }
    }
}

/// A ranked list is sorted by points descending and holds exactly the
/// entries it was derived from, each once per occurrence; together
/// with stability this pins the leaderboard of a given table down to
/// one list, the same on every call.
pub proof fn lemma_rank_seq_ranked(s: Seq<PlayerView>)
    ensures
        ranked_order(rank_seq(s)),
        rank_seq(s).to_multiset() == s.to_multiset(),
    decreases s.len(),
{
    broadcast use vstd::seq_lib::group_to_multiset_ensures;

    if s.len() == 0 {
        assert(rank_seq(s).to_multiset() =~= s.to_multiset());
    } else {
        lemma_rank_seq_ranked(s.drop_last());
        lemma_insert_ranked_sorted(rank_seq(s.drop_last()), s.last());
        assert(s == s.drop_last().push(s.last()));
        assert(s.drop_last().push(s.last()).to_multiset() =~= s.drop_last().to_multiset().insert(
            s.last(),
        ));
    }
}

/// The predicate selecting entries with exactly `v` points.
pub open spec fn has_points(v: nat) -> spec_fn(PlayerView) -> bool {
    |p: PlayerView| p.points == v
}

proof fn lemma_filter_no_match(s: Seq<PlayerView>, pred: spec_fn(PlayerView) -> bool)
    requires
        forall|i: int| 0 <= i < s.len() ==> !pred(s[i]),
    ensures
        s.filter(pred) == Seq::<PlayerView>::empty(),
    decreases s.len(),
{
    reveal(Seq::filter);
    if s.len() > 0 {
        lemma_filter_no_match(s.drop_last(), pred);
    }
}

proof fn lemma_insert_ranked_stable(s: Seq<PlayerView>, x: PlayerView, v: nat)
    requires
        ranked_order(s),
    ensures
        insert_ranked(s, x).filter(has_points(v)) == if x.points == v {
            s.filter(has_points(v)).push(x)
        } else {
            s.filter(has_points(v))
        },
{
    broadcast use vstd::seq_lib::group_filter_ensures;

    reveal(Seq::filter);
    let pred = has_points(v);
    let ip = insert_point(s, x);
    lemma_insert_point(s, x);
    let prefix = s.subrange(0, ip);
    let suffix = s.subrange(ip, s.len() as int);
    assert(s =~= prefix + suffix);
    assert(insert_ranked(s, x) =~= (prefix + seq![x]) + suffix);
    assert(seq![x].drop_last() =~= Seq::<PlayerView>::empty());
    if x.points == v {
        assert forall|i: int| 0 <= i < suffix.len() implies !pred(suffix[i]) by {
            assert(suffix[i] == s[ip + i]);
            assert(s[ip].points < x.points);
        }
        lemma_filter_no_match(suffix, pred);
        assert(insert_ranked(s, x).filter(pred) =~= prefix.filter(pred).push(x));
        assert(s.filter(pred) =~= prefix.filter(pred));
    } else {
        assert(!pred(x));
        assert(seq![x].last() == x);
        assert(seq![x].filter(pred) == seq![x].drop_last().filter(pred));
        assert(seq![x].filter(pred) =~= Seq::<PlayerView>::empty());
        assert(insert_ranked(s, x).filter(pred) =~= prefix.filter(pred) + suffix.filter(pred));
        assert(s.filter(pred) =~= prefix.filter(pred) + suffix.filter(pred));
    }
}

/// The sort behind the leaderboard is stable: for every point count,
/// the entries holding exactly that many points stand in the ranked
/// list in the order they hold in the table. The tie-break among
/// equal scores is therefore the table order — the order in which the
/// players first answered — fixed and reproducible.
pub proof fn lemma_rank_seq_stable(s: Seq<PlayerView>, v: nat)
    ensures
        rank_seq(s).filter(has_points(v)) == s.filter(has_points(v)),
    decreases s.len(),
{
    reveal(Seq::filter);
    let pred = has_points(v);
    if s.len() == 0 {
        assert(rank_seq(s).filter(pred) =~= s.filter(pred));
    } else {
        let d = s.drop_last();
        let l = s.last();
        lemma_rank_seq_stable(d, v);
        lemma_rank_seq_ranked(d);
        lemma_insert_ranked_stable(rank_seq(d), l, v);
        if l.points == v {
            assert(s.filter(pred) == d.filter(pred).push(l));
        } else {
            assert(s.filter(pred) == d.filter(pred));
        }
    }
}

/// Derive the leaderboard of `quiz` from its current score table.
pub fn rank(quiz: &Quiz, scores: &ScoreTable) -> (lb: Leaderboard)
    ensures
        lb@.quiz == quiz@,
        lb@.list == ranked(scores@, quiz@.id),
{
    let mut list: Vec<Player> = Vec::new();
    let n = scores.entries.len();
    let mut i: usize = 0;
    proof {
        assert(players_of(scores@.take(0), quiz@.id) =~= Seq::<PlayerView>::empty());
        assert(list.deep_view() =~= rank_seq(players_of(scores@.take(0), quiz@.id)));
    }
    while i < n
        invariant
            n == scores.entries.len(),
            0 <= i <= n,
            list.deep_view() == rank_seq(players_of(scores@.take(i as int), quiz@.id)),
        decreases n - i,
    {
        let entry = &scores.entries[i];
        let p = Player {
            id: entry.player_id.clone(),
            quiz_id: quiz.id.clone(),
            points: entry.points,
        };
        let m = list.len();
        let mut k: usize = 0;
        while k < m && list[k].points >= p.points
            invariant
                m == list.len(),
                0 <= k <= m,
                forall|j: int| 0 <= j < k ==> list.deep_view()[j].points >= p@.points,
            decreases m - k,
        {
            k += 1;
        }
        let ghost before = list.deep_view();
        list.insert(k, p);
        proof {
            assert(insert_point(before, p@) == k as int) by {
                lemma_insert_point(before, p@);
                if insert_point(before, p@) < k as int {
                    assert(before[insert_point(before, p@)].points >= p@.points);
                }
                if insert_point(before, p@) > k as int {
                    assert((k as int) < before.len());
                    assert(before[k as int].points >= p@.points);
                }
            }
            lemma_insert_point(before, p@);
            assert(list.deep_view() =~= before.insert(k as int, p@));
            assert(players_of(scores@.take(i + 1), quiz@.id) =~= players_of(
                scores@.take(i as int),
                quiz@.id,
            ).push(p@));
            let t = players_of(scores@.take(i + 1), quiz@.id);
            assert(t.drop_last() =~= players_of(scores@.take(i as int), quiz@.id));
            assert(rank_seq(t) == insert_ranked(rank_seq(t.drop_last()), t.last()));
        }
        i += 1;
    }
    proof {
        assert(scores@.take(n as int) =~= scores@);
    }
    Leaderboard { quiz: quiz.clone(), list }
}

} // verus!
