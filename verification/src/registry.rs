//! The player registry: per-quiz username registration and the
//! roster-changed channel.
//!
//! A companion of the quiz engine: it resolves player identities,
//! registers unique usernames per quiz, and announces the new roster
//! of a quiz to its subscribers whenever a player joins.

use vstd::prelude::*;

use tokio::sync::broadcast::Receiver;

use crate::QuizError;
use crate::broker::{ChannelRegistry, key_index};

verus! {

/// One registered player.
pub struct Player {
    pub id: String,
    pub name: String,
    pub quiz_id: String,
}

/// The mathematical value of a [`Player`].
pub struct PlayerView {
    pub id: Seq<char>,
    pub name: Seq<char>,
    pub quiz_id: Seq<char>,
}

impl View for Player {
    type V = PlayerView;

    open spec fn view(&self) -> PlayerView {
        PlayerView { id: self.id@, name: self.name@, quiz_id: self.quiz_id@ }
    }
}

impl DeepView for Player {
    type V = PlayerView;

    open spec fn deep_view(&self) -> PlayerView {
        self.view()
    }
}

impl Clone for Player {
    fn clone(&self) -> (res: Self)
        ensures
            res@ == self@,
    {
        Player { id: self.id.clone(), name: self.name.clone(), quiz_id: self.quiz_id.clone() }
    }
}

/// Relies on uuid::Uuid::new_v4 and its display form: a freshly drawn
/// random version-4 identifier, rendered as 36 hyphenated lowercase
/// hexadecimal characters. Nothing is assumed about which identifier
/// comes back.
#[verifier::external_body]
fn fresh_player_id() -> (r: String)
    ensures
        r@.len() == 36,
{
    uuid::Uuid::new_v4().to_string()
}

/// The first player of `s` whose identifier is `id`, if any.
pub open spec fn find_player(s: Seq<PlayerView>, id: Seq<char>) -> Option<PlayerView>
    decreases s.len(),
{
    if s.len() == 0 {
        None
    } else if s[0].id == id {
        Some(s[0])
    } else {
        find_player(s.drop_first(), id)
    }
}

/// Whether some player of `s` already holds `name` within quiz `q`:
/// usernames are unique per quiz.
pub open spec fn name_taken(s: Seq<PlayerView>, name: Seq<char>, q: Seq<char>) -> bool {
    exists|i: int| 0 <= i < s.len() && s[i].name == name && s[i].quiz_id == q
}

/// The players of quiz `q`, in registration order.
pub open spec fn roster_of(s: Seq<PlayerView>, q: Seq<char>) -> Seq<PlayerView>
    decreases s.len(),
{
    if s.len() == 0 {
        Seq::empty()
    } else {
        roster_of(s.drop_last(), q) + (if s.last().quiz_id == q {
            seq![s.last()]
        } else {
            Seq::empty()
        })
    }
}

/// The registry after storing `p`: an existing player with the same
/// identifier is replaced, otherwise `p` is appended.
pub open spec fn upsert_player(s: Seq<PlayerView>, p: PlayerView) -> Seq<PlayerView>
    decreases s.len(),
{
    if s.len() == 0 {
        seq![p]
    } else if s[0].id == p.id {
        seq![p] + s.drop_first()
    } else {
        seq![s[0]] + upsert_player(s.drop_first(), p)
    }
}

proof fn lemma_find_player_hit(s: Seq<PlayerView>, id: Seq<char>, i: int)
    requires
        0 <= i < s.len(),
        forall|j: int| 0 <= j < i ==> s[j].id != id,
        s[i].id == id,
    ensures
        find_player(s, id) == Some(s[i]),
    decreases i,
{
    if i > 0 {
        lemma_find_player_hit(s.drop_first(), id, i - 1);
    }
}

proof fn lemma_find_player_miss(s: Seq<PlayerView>, id: Seq<char>)
    requires
        forall|j: int| 0 <= j < s.len() ==> s[j].id != id,
    ensures
        find_player(s, id) is None,
    decreases s.len(),
{
    if s.len() > 0 {
        lemma_find_player_miss(s.drop_first(), id);
    }
}

proof fn lemma_upsert_player_hit(s: Seq<PlayerView>, p: PlayerView, i: int)
    requires
        0 <= i < s.len(),
        forall|j: int| 0 <= j < i ==> s[j].id != p.id,
        s[i].id == p.id,
    ensures
        upsert_player(s, p) == s.update(i, p),
    decreases i,
{
    if i == 0 {
        assert(upsert_player(s, p) =~= s.update(0, p));
    } else {
        lemma_upsert_player_hit(s.drop_first(), p, i - 1);
        assert(upsert_player(s, p) =~= s.update(i, p));
    }
}

proof fn lemma_upsert_player_miss(s: Seq<PlayerView>, p: PlayerView)
    requires
        forall|j: int| 0 <= j < s.len() ==> s[j].id != p.id,
    ensures
        upsert_player(s, p) == s.push(p),
    decreases s.len(),
{
    if s.len() == 0 {
        assert(upsert_player(s, p) =~= s.push(p));
    } else {
        lemma_upsert_player_miss(s.drop_first(), p);
        assert(upsert_player(s, p) =~= s.push(p));
    }
}

/// The registered players of every quiz, plus the per-quiz
/// roster-changed channels.
pub struct PlayerRegistry {
    pub players: Vec<Player>,
    pub roster: ChannelRegistry<Vec<Player>>,
}

impl PlayerRegistry {
    /// No two players share an identifier, and the channel registry
    /// is consistent.
    pub open spec fn wf(self) -> bool {
        &&& (forall|i: int, j: int|
            0 <= i < j < self.players.deep_view().len() ==> self.players.deep_view()[i].id
                != self.players.deep_view()[j].id)
        &&& self.roster.wf()
    }

    /// An empty registry.
    pub fn new() -> (r: PlayerRegistry)
        ensures
            r.players.deep_view() == Seq::<PlayerView>::empty(),
            r.wf(),
    {
        let r = PlayerRegistry { players: Vec::new(), roster: ChannelRegistry::new() };
        proof {
            assert(r.players.deep_view() =~= Seq::<PlayerView>::empty());
        }
        r
    }

    /// The player registered under `player_id`, or `None` where the
    /// identifier is unknown.
    pub fn get_player(&self, player_id: &String) -> (r: Option<Player>)
        ensures
            r.deep_view() == find_player(self.players.deep_view(), player_id@),
    {
        let n = self.players.len();
        let mut i: usize = 0;
        while i < n
            invariant
                n == self.players.len(),
                0 <= i <= n,
                forall|j: int| 0 <= j < i ==> self.players.deep_view()[j].id != player_id@,
            decreases n - i,
        {
            if self.players[i].id == *player_id {
                proof {
                    lemma_find_player_hit(self.players.deep_view(), player_id@, i as int);
                }
                return Some(self.players[i].clone());
            }
            i += 1;
        }
        proof {
            lemma_find_player_miss(self.players.deep_view(), player_id@);
        }
        None
    }

    /// Every player of quiz `quiz_id`, in registration order.
    pub fn players_for_quiz(&self, quiz_id: &String) -> (r: Vec<Player>)
        ensures
            r.deep_view() == roster_of(self.players.deep_view(), quiz_id@),
    {
        let n = self.players.len();
        let mut out: Vec<Player> = Vec::new();
        let mut i: usize = 0;
        proof {
            assert(self.players.deep_view().take(0) =~= Seq::<PlayerView>::empty());
            assert(out.deep_view() =~= Seq::<PlayerView>::empty());
        }
        while i < n
            invariant
                n == self.players.len(),
                0 <= i <= n,
                out.deep_view() == roster_of(self.players.deep_view().take(i as int), quiz_id@),
            decreases n - i,
        {
            let ghost s = self.players.deep_view();
            let ghost before = out.deep_view();
            if self.players[i].quiz_id == *quiz_id {
                out.push(self.players[i].clone());
                proof {
                    assert(out.deep_view() =~= before.push(s[i as int]));
                }
            }
            proof {
                assert(s.take(i + 1).drop_last() =~= s.take(i as int));
                assert(s.take(i + 1).last() == s[i as int]);
                if s[i as int].quiz_id == quiz_id@ {
                    assert(out.deep_view() =~= roster_of(s.take(i as int), quiz_id@) + seq![
                        s[i as int],
                    ]);
                } else {
                    assert(out.deep_view() =~= roster_of(s.take(i as int), quiz_id@)
                        + Seq::<PlayerView>::empty());
                }
            }
            i += 1;
        }
        proof {
            assert(self.players.deep_view().take(n as int) =~= self.players.deep_view());
        }
        out
    }

    /// Register `username` for quiz `quiz_id` under a freshly drawn
    /// identifier, and announce the quiz's new roster on its
    /// roster-changed channel, best-effort. A username already held
    /// within the same quiz is refused as a conflict.
    pub fn create_player(&mut self, username: String, quiz_id: &String) -> (r: Result<
        Player,
        QuizError,
    >)
        requires
            old(self).wf(),
        ensures
            final(self).wf(),
            final(self).roster == old(self).roster,
            name_taken(old(self).players.deep_view(), username@, quiz_id@) ==> r == Err::<
                Player,
                QuizError,
            >(QuizError::Conflict) && *final(self) == *old(self),
            !name_taken(old(self).players.deep_view(), username@, quiz_id@) ==> (r matches Ok(p)
                && p@.name == username@ && p@.quiz_id == quiz_id@ && p@.id.len() == 36
                && final(self).players.deep_view() == upsert_player(
                old(self).players.deep_view(),
                p@,
            )),
    {
        let n = self.players.len();
        let mut i: usize = 0;
        while i < n
            invariant
                self == old(self),
                old(self).wf(),
                n == self.players.len(),
                0 <= i <= n,
                forall|j: int|
                    0 <= j < i ==> !(self.players.deep_view()[j].name == username@
                        && self.players.deep_view()[j].quiz_id == quiz_id@),
            decreases n - i,
        {
            if self.players[i].name == username && self.players[i].quiz_id == *quiz_id {
                proof {
                    assert(self.players.deep_view()[i as int].name == username@);
                    assert(name_taken(old(self).players.deep_view(), username@, quiz_id@));
                }
                return Err(QuizError::Conflict);
            }
            i += 1;
        }
        proof {
            assert(!name_taken(old(self).players.deep_view(), username@, quiz_id@));
        }
        let new_player = Player {
            id: fresh_player_id(),
            name: username.clone(),
            quiz_id: quiz_id.clone(),
        };
        let stored = new_player.clone();
        let ghost before = self.players.deep_view();
        let m = self.players.len();
        let mut k: usize = 0;
        while k < m
            invariant
                self.players.deep_view() == before,
                self.roster == old(self).roster,
                before == old(self).players.deep_view(),
                old(self).wf(),
                !name_taken(old(self).players.deep_view(), username@, quiz_id@),
                m == self.players.len(),
                0 <= k <= m,
                forall|j: int| 0 <= j < k ==> before[j].id != stored@.id,
                stored@ == new_player@,
                new_player@.name == username@,
                new_player@.quiz_id == quiz_id@,
                new_player@.id.len() == 36,
            decreases m - k,
        {
            if self.players[k].id == stored.id {
                proof {
                    lemma_upsert_player_hit(before, stored@, k as int);
                }
                self.players.remove(k);
                self.players.insert(k, stored);
                proof {
                    assert(self.players.deep_view() =~= before.update(k as int, new_player@));
                    assert forall|a: int, b: int|
                        0 <= a < b < self.players.deep_view().len() implies self.players.deep_view(
                    )[a].id != self.players.deep_view()[b].id by {
                        assert(before[k as int].id == new_player@.id);
                    }
                }
                let roster = self.players_for_quiz(quiz_id);
                self.roster.publish(quiz_id, roster);
                return Ok(new_player);
            }
            k += 1;
        }
        proof {
            lemma_upsert_player_miss(before, stored@);
        }
        self.players.push(stored);
        proof {
            assert(self.players.deep_view() =~= before.push(new_player@));
        }
        let roster = self.players_for_quiz(quiz_id);
        self.roster.publish(quiz_id, roster);
        Ok(new_player)
    }

    /// Attach to `quiz_id`'s roster-changed channel, creating it on
    /// first use; the stream carries each announced roster after the
    /// moment of subscription.
    pub fn subscribe_roster(&mut self, quiz_id: &String) -> (rx: Receiver<Vec<Player>>)
        requires
            old(self).wf(),
        ensures
            final(self).wf(),
            final(self).players == old(self).players,
            key_index(old(self).roster.keys(), quiz_id@) is Some ==> final(self).roster == old(
                self,
            ).roster,
            key_index(old(self).roster.keys(), quiz_id@) is None
                ==> final(self).roster.entries@.drop_last() == old(self).roster.entries@
                && final(self).roster.entries@.last().key@ == quiz_id@,
    {
        self.roster.subscribe(quiz_id)
    }
}

} // verus!
