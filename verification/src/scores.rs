//! Per-cycle score tables.
//!
//! A [`ScoreTable`] maps each player who has submitted at least one
//! answer in the current cycle to a non-negative point total; absence
//! means zero points. Entries keep the order in which players first
//! answered, which later gives the leaderboard a deterministic
//! tie-break order.

use vstd::prelude::*;

verus! {

/// One row of a score table: a player and the points accumulated in
/// the current cycle.
pub struct ScoreEntry {
    pub player_id: String,
    pub points: u64,
}

/// The mathematical value of a [`ScoreEntry`].
pub struct ScoreEntryView {
    pub player_id: Seq<char>,
    pub points: nat,
}

impl View for ScoreEntry {
    type V = ScoreEntryView;

    open spec fn view(&self) -> ScoreEntryView {
        ScoreEntryView { player_id: self.player_id@, points: self.points as nat }
    }
}

impl DeepView for ScoreEntry {
    type V = ScoreEntryView;

    open spec fn deep_view(&self) -> ScoreEntryView {
        self.view()
    }
}

impl Clone for ScoreEntry {
    fn clone(&self) -> (res: Self)
        ensures
            res@ == self@,
    {
        ScoreEntry { player_id: self.player_id.clone(), points: self.points }
    }
}

/// The points of `p` in table `s`, or `None` where `p` has no entry.
pub open spec fn find_score(s: Seq<ScoreEntryView>, p: Seq<char>) -> Option<nat>
    decreases s.len(),
{
    if s.len() == 0 {
        None
    } else if s[0].player_id == p {
        Some(s[0].points)
    } else {
        find_score(s.drop_first(), p)
    }
}

/// The points of `p` in table `s`; a player without an entry has zero.
pub open spec fn points_of(s: Seq<ScoreEntryView>, p: Seq<char>) -> nat {
    match find_score(s, p) {
        Some(points) => points,
        None => 0,
    }
}

/// Table `s` after one answer by `p` is scored: the player's total
/// grows by one if the answer was correct and by zero otherwise, and a
/// player without an entry gets one, appended at the end.
pub open spec fn recorded(s: Seq<ScoreEntryView>, p: Seq<char>, correct: bool) -> Seq<
    ScoreEntryView,
>
    decreases s.len(),
{
    let incr: nat = if correct {
        1
    } else {
        0
    };
    if s.len() == 0 {
        seq![ScoreEntryView { player_id: p, points: incr }]
    } else if s[0].player_id == p {
        seq![ScoreEntryView { player_id: p, points: s[0].points + incr }] + s.drop_first()
    } else {
        seq![s[0]] + recorded(s.drop_first(), p, correct)
    }
}

/// No two entries of `s` name the same player.
pub open spec fn unique_players(s: Seq<ScoreEntryView>) -> bool {
    forall|i: int, j: int|
        0 <= i < j < s.len() ==> s[i].player_id != s[j].player_id
}

/// The score table of one quiz's current cycle.
pub struct ScoreTable {
    pub entries: Vec<ScoreEntry>,
}

impl View for ScoreTable {
    type V = Seq<ScoreEntryView>;

    open spec fn view(&self) -> Seq<ScoreEntryView> {
        self.entries.deep_view()
    }
}

impl ScoreTable {
    /// Each player has at most one entry.
    pub open spec fn wf(self) -> bool {
        unique_players(self@)
    }

    /// An empty table: the state of a cycle in which nobody has
    /// answered yet.
    pub fn new() -> (t: ScoreTable)
        ensures
            t@ == Seq::<ScoreEntryView>::empty(),
            t.wf(),
    {
        let t = ScoreTable { entries: Vec::new() };
        proof {
            assert(t@ =~= Seq::<ScoreEntryView>::empty());
        }
        t
    }

    /// Drop every entry: a new cycle begins with an empty table.
    pub fn clear(&mut self)
        ensures
            final(self)@ == Seq::<ScoreEntryView>::empty(),
            final(self).wf(),
    {
        self.entries.clear();
        proof {
            assert(self@ =~= Seq::<ScoreEntryView>::empty());
        }
    }

    /// The points of `player_id`, or `None` where the player has not
    /// answered in the current cycle.
    pub fn lookup(&self, player_id: &String) -> (r: Option<u64>)
        ensures
            r matches Some(v) ==> find_score(self@, player_id@) == Some(v as nat),
            r is None ==> find_score(self@, player_id@) is None,
    {
        let n = self.entries.len();
        let mut i: usize = 0;
        while i < n
            invariant
                n == self.entries.len(),
                0 <= i <= n,
                forall|j: int| 0 <= j < i ==> self@[j].player_id != player_id@,
            decreases n - i,
        {
            if self.entries[i].player_id == *player_id {
                let points = self.entries[i].points;
                proof {
                    lemma_find_score_hit(self@, player_id@, i as int);
                }
                return Some(points);
            }
            i += 1;
        }
        proof {
            lemma_find_score_miss(self@, player_id@);
        }
        None
    }

    /// Score one answer: add one point if it was correct, zero
    /// otherwise, creating the player's entry if absent.
    pub fn record_answer(&mut self, player_id: &String, is_correct: bool)
        requires
            old(self).wf(),
            points_of(old(self)@, player_id@) < u64::MAX,
        ensures
            final(self)@ == recorded(old(self)@, player_id@, is_correct),
            final(self).wf(),
    {
        let incr: u64 = if is_correct {
            1
        } else {
            0
        };
        let n = self.entries.len();
        let mut i: usize = 0;
        while i < n
            invariant
                self == old(self),
                old(self).wf(),
                points_of(old(self)@, player_id@) < u64::MAX,
                incr == (if is_correct { 1u64 } else { 0u64 }),
                n == self.entries.len(),
                0 <= i <= n,
                forall|j: int| 0 <= j < i ==> self@[j].player_id != player_id@,
            decreases n - i,
        {
            if self.entries[i].player_id == *player_id {
                let points = self.entries[i].points;
                proof {
                    lemma_find_score_hit(self@, player_id@, i as int);
                    assert(self@[i as int] == self.entries@[i as int]@);
                    assert(points_of(self@, player_id@) == points as nat);
                }
                let entry = ScoreEntry {
                    player_id: self.entries[i].player_id.clone(),
                    points: points + incr,
                };
                let ghost before = self@;
                self.entries.remove(i);
                self.entries.insert(i, entry);
                proof {
                    lemma_recorded_hit(before, player_id@, is_correct, i as int);
                    assert(self@ =~= before.update(
                        i as int,
                        ScoreEntryView { player_id: player_id@, points: (points + incr) as nat },
                    ));
                }
                return ;
            }
            i += 1;
        }
        proof {
            lemma_find_score_miss(self@, player_id@);
        }
        let ghost before = self@;
        self.entries.push(ScoreEntry { player_id: player_id.clone(), points: incr });
        proof {
            assert(self@ =~= before.push(
                ScoreEntryView { player_id: player_id@, points: incr as nat },
            ));
            lemma_recorded_miss(before, player_id@, is_correct);
        }
    }
}

impl Clone for ScoreTable {
    fn clone(&self) -> (res: Self)
        ensures
            res@ == self@,
    {
        let res = ScoreTable { entries: self.entries.clone() };
        proof {
            assert forall|i: int| 0 <= i < self.entries.len() implies res.entries@[i]@
                == self.entries@[i]@ by {
                assert(cloned::<ScoreEntry>(self.entries[i], res.entries[i]));
            }
            assert(res.entries.deep_view() =~= self.entries.deep_view());
        }
        res
    }
}

proof fn lemma_find_score_hit(s: Seq<ScoreEntryView>, p: Seq<char>, i: int)
    requires
        0 <= i < s.len(),
        forall|j: int| 0 <= j < i ==> s[j].player_id != p,
        s[i].player_id == p,
    ensures
        find_score(s, p) == Some(s[i].points),
    decreases i,
{
    if i > 0 {
        lemma_find_score_hit(s.drop_first(), p, i - 1);
    }
}

proof fn lemma_find_score_miss(s: Seq<ScoreEntryView>, p: Seq<char>)
    requires
        forall|j: int| 0 <= j < s.len() ==> s[j].player_id != p,
    ensures
        find_score(s, p) == None::<nat>,
    decreases s.len(),
{
    if s.len() > 0 {
        lemma_find_score_miss(s.drop_first(), p);
    }
}

proof fn lemma_recorded_hit(s: Seq<ScoreEntryView>, p: Seq<char>, correct: bool, i: int)
    requires
        0 <= i < s.len(),
        forall|j: int| 0 <= j < i ==> s[j].player_id != p,
        s[i].player_id == p,
    ensures
        recorded(s, p, correct) == s.update(
            i,
            ScoreEntryView {
                player_id: p,
                points: s[i].points + (if correct { 1nat } else { 0nat }),
            },
        ),
    decreases i,
{
    let incr: nat = if correct {
        1
    } else {
        0
    };
    let target = ScoreEntryView { player_id: p, points: s[i].points + incr };
    if i == 0 {
        assert(recorded(s, p, correct) =~= s.update(0, target));
    } else {
        lemma_recorded_hit(s.drop_first(), p, correct, i - 1);
        assert(recorded(s, p, correct) =~= s.update(i, target));
    }
}

proof fn lemma_recorded_miss(s: Seq<ScoreEntryView>, p: Seq<char>, correct: bool)
    requires
        forall|j: int| 0 <= j < s.len() ==> s[j].player_id != p,
    ensures
        recorded(s, p, correct) == s.push(
            ScoreEntryView { player_id: p, points: if correct { 1nat } else { 0nat } },
        ),
    decreases s.len(),
{
    let incr: nat = if correct {
        1
    } else {
        0
    };
    let target = ScoreEntryView { player_id: p, points: incr };
    if s.len() == 0 {
        assert(recorded(s, p, correct) =~= s.push(target));
    } else {
        lemma_recorded_miss(s.drop_first(), p, correct);
        assert(recorded(s, p, correct) =~= s.push(target));
    }
}

/// A whole cycle of submissions, each the answering player and whether
/// the answer was correct, applied in order to an empty table.
pub open spec fn apply_answers(rs: Seq<(Seq<char>, bool)>) -> Seq<ScoreEntryView>
    decreases rs.len(),
{
    if rs.len() == 0 {
        Seq::empty()
    } else {
        recorded(apply_answers(rs.drop_last()), rs.last().0, rs.last().1)
    }
}

/// How many submissions of `rs` are correct answers by `p`. A player
/// who answers the same question twice is counted twice: points count
/// correct submissions, not distinct questions.
pub open spec fn correct_count(rs: Seq<(Seq<char>, bool)>, p: Seq<char>) -> nat
    decreases rs.len(),
{
    if rs.len() == 0 {
        0
    } else {
        correct_count(rs.drop_last(), p) + (if rs.last().0 == p && rs.last().1 {
            1nat
        } else {
            0nat
        })
    }
}

proof fn lemma_points_after_recorded(s: Seq<ScoreEntryView>, p: Seq<char>, q: Seq<char>, correct: bool)
    ensures
        points_of(recorded(s, q, correct), p) == if p == q {
            points_of(s, p) + (if correct { 1nat } else { 0nat })
        } else {
            points_of(s, p)
        },
    decreases s.len(),
{
    let incr: nat = if correct {
        1
    } else {
        0
    };
    if s.len() == 0 {
        assert(recorded(s, q, correct) == seq![ScoreEntryView { player_id: q, points: incr }]);
        reveal_with_fuel(find_score, 2);
    } else if s[0].player_id == q {
        let r = recorded(s, q, correct);
        assert(r == seq![ScoreEntryView { player_id: q, points: s[0].points + incr }]
            + s.drop_first());
        assert(r.drop_first() =~= s.drop_first());
    } else {
        lemma_points_after_recorded(s.drop_first(), p, q, correct);
        let r = recorded(s, q, correct);
        assert(r == seq![s[0]] + recorded(s.drop_first(), q, correct));
        assert(r.drop_first() =~= recorded(s.drop_first(), q, correct));
    }
}

/// After any sequence of submissions in one cycle, a player's recorded
/// points equal the number of correct answers that player submitted in
/// that cycle.
pub proof fn lemma_points_count_correct_answers(rs: Seq<(Seq<char>, bool)>, p: Seq<char>)
    ensures
        points_of(apply_answers(rs), p) == correct_count(rs, p),
    decreases rs.len(),
{
    if rs.len() > 0 {
        lemma_points_count_correct_answers(rs.drop_last(), p);
        lemma_points_after_recorded(apply_answers(rs.drop_last()), p, rs.last().0, rs.last().1);
    }
}

} // verus!
