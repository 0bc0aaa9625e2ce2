//! Multicast notification channels.
//!
//! A [`ChannelRegistry`] owns, per key (a quiz identifier), one
//! multicast channel with a small bounded buffer. Channels are created
//! lazily on first subscribe, publishing is best-effort — a channel
//! with no key, no subscriber, or only lagging subscribers loses the
//! payload without affecting the publisher — and retiring a channel
//! ends every subscriber's stream. The [`NotificationBroker`] keeps
//! one registry per event kind: question-advanced and
//! leaderboard-updated.

use vstd::prelude::*;

use tokio::sync::broadcast::{Receiver, Sender};

use crate::catalog::Question;
use crate::ranking::Leaderboard;

verus! {

#[verifier::external_type_specification]
#[verifier::external_body]
#[verifier::reject_recursive_types(T)]
pub struct ExSender<T>(Sender<T>);

#[verifier::external_type_specification]
#[verifier::external_body]
#[verifier::reject_recursive_types(T)]
pub struct ExReceiver<T>(Receiver<T>);

/// Buffer capacity of each channel: room for a couple of pending
/// events. A subscriber that falls further behind misses events
/// rather than blocking the publisher.
pub const CHANNEL_CAPACITY: usize = 2;

/// Relies on tokio::sync::broadcast::channel: creates a multicast
/// channel with a buffer of `capacity` values and returns its send
/// half and one attached receive half. It panics on a capacity of
/// zero or above half of usize::MAX, so those are excluded here.
#[verifier::external_body]
fn broadcast_channel<T: Clone>(capacity: usize) -> (Sender<T>, Receiver<T>)
    requires
        1 <= capacity <= usize::MAX / 2,
{
    tokio::sync::broadcast::channel(capacity)
}

/// Relies on tokio::sync::broadcast::Sender::subscribe: attaches a
/// fresh receiver to the sender's channel; it sees only values sent
/// after this call, with no replay of history.
#[verifier::external_body]
fn broadcast_subscribe<T>(sender: &Sender<T>) -> Receiver<T> {
    sender.subscribe()
}

/// Relies on tokio::sync::broadcast::Sender::send: hands the value to
/// every receiver currently attached. Delivery is best-effort: the
/// error of a channel without receivers is dropped, and a lagging
/// receiver misses values without affecting this call.
#[verifier::external_body]
fn broadcast_send<T>(sender: &Sender<T>, value: T) {
    let _ = sender.send(value);
}

/// One channel of a registry: its key and the send half.
#[verifier::reject_recursive_types(T)]
pub struct ChannelEntry<T> {
    pub key: String,
    pub sender: Sender<T>,
}

/// The index of `id` among `keys`, if present.
pub open spec fn key_index(keys: Seq<Seq<char>>, id: Seq<char>) -> Option<int>
    decreases keys.len(),
{
    if keys.len() == 0 {
        None
    } else if keys[0] == id {
        Some(0int)
    } else {
        match key_index(keys.drop_first(), id) {
            Some(i) => Some(i + 1),
            None => None,
        }
    }
}

proof fn lemma_key_index_hit(keys: Seq<Seq<char>>, id: Seq<char>, i: int)
    requires
        0 <= i < keys.len(),
        forall|j: int| 0 <= j < i ==> keys[j] != id,
        keys[i] == id,
    ensures
        key_index(keys, id) == Some(i),
    decreases i,
{
    if i > 0 {
        lemma_key_index_hit(keys.drop_first(), id, i - 1);
    }
}

proof fn lemma_key_index_miss(keys: Seq<Seq<char>>, id: Seq<char>)
    requires
        forall|j: int| 0 <= j < keys.len() ==> keys[j] != id,
    ensures
        key_index(keys, id) is None,
    decreases keys.len(),
{
    if keys.len() > 0 {
        lemma_key_index_miss(keys.drop_first(), id);
    }
}

/// A key that stands somewhere among `keys` is found.
pub proof fn lemma_key_present(keys: Seq<Seq<char>>, id: Seq<char>, i: int)
    requires
        0 <= i < keys.len(),
        keys[i] == id,
    ensures
        key_index(keys, id) is Some,
{
    lemma_key_index_props(keys, id);
}

/// The channels of one event kind, keyed by quiz identifier.
#[verifier::reject_recursive_types(T)]
pub struct ChannelRegistry<T> {
    pub entries: Vec<ChannelEntry<T>>,
}

impl<T: Clone> ChannelRegistry<T> {
    /// The keys that currently have a channel, in creation order.
    pub open spec fn keys(self) -> Seq<Seq<char>> {
        Seq::new(self.entries@.len(), |i: int| self.entries@[i].key@)
    }

    /// At most one channel per key.
    pub open spec fn wf(self) -> bool {
        forall|i: int, j: int|
            0 <= i < j < self.entries@.len() ==> self.entries@[i].key@ != self.entries@[j].key@
    }

    /// A registry with no channels.
    pub fn new() -> (r: ChannelRegistry<T>)
        ensures
            r.keys() == Seq::<Seq<char>>::empty(),
            r.wf(),
    {
        let r = ChannelRegistry { entries: Vec::new() };
        proof {
            assert(r.keys() =~= Seq::<Seq<char>>::empty());
        }
        r
    }

    /// Attach to `key`'s channel, creating the channel first if none
    /// exists; the receiver sees only events published after this
    /// call. An existing channel is left as it is.
    pub fn subscribe(&mut self, key: &String) -> (rx: Receiver<T>)
        requires
            old(self).wf(),
        ensures
            final(self).wf(),
            key_index(old(self).keys(), key@) is Some ==> *final(self) == *old(self),
            key_index(old(self).keys(), key@) is None ==> final(self).entries@.len() == old(
                self,
            ).entries@.len() + 1 && final(self).entries@.drop_last() == old(self).entries@
                && final(self).entries@.last().key@ == key@,
    {
        let n = self.entries.len();
        let mut i: usize = 0;
        while i < n
            invariant
                self == old(self),
                old(self).wf(),
                n == self.entries.len(),
                0 <= i <= n,
                forall|j: int| 0 <= j < i ==> self.entries@[j].key@ != key@,
            decreases n - i,
        {
            if self.entries[i].key == *key {
                proof {
                    lemma_key_index_hit(self.keys(), key@, i as int);
                }
                return broadcast_subscribe(&self.entries[i].sender);
            }
            i += 1;
        }
        proof {
            lemma_key_index_miss(self.keys(), key@);
        }
        let (tx, rx) = broadcast_channel(CHANNEL_CAPACITY);
        let ghost before = self.entries@;
        self.entries.push(ChannelEntry { key: key.clone(), sender: tx });
        proof {
            assert(self.entries@.drop_last() =~= before);
        }
        rx
    }

    /// Publish `value` to `key`'s channel, best-effort: where no
    /// channel exists the call is a silent no-op, and subscribers that
    /// lag or have gone away are tokio's concern, never the
    /// publisher's.
    pub fn publish(&self, key: &String, value: T) {
        let n = self.entries.len();
        let mut i: usize = 0;
        while i < n
            invariant
                n == self.entries.len(),
                0 <= i <= n,
            decreases n - i,
        {
            if self.entries[i].key == *key {
                broadcast_send(&self.entries[i].sender, value);
                return ;
            }
            i += 1;
        }
    }

    /// Remove `key`'s channel, if any: the streams of its subscribers
    /// end, and a channel later created under the same key is
    /// independent of them.
    pub fn retire(&mut self, key: &String)
        requires
            old(self).wf(),
        ensures
            final(self).wf(),
            key_index(old(self).keys(), key@) is None ==> *final(self) == *old(self),
            key_index(old(self).keys(), key@) matches Some(i) ==> final(self).entries@ == old(
                self,
            ).entries@.remove(i),
    {
        let n = self.entries.len();
        let mut i: usize = 0;
        while i < n
            invariant
                self == old(self),
                old(self).wf(),
                n == self.entries.len(),
                0 <= i <= n,
                forall|j: int| 0 <= j < i ==> self.entries@[j].key@ != key@,
            decreases n - i,
        {
            if self.entries[i].key == *key {
                proof {
                    lemma_key_index_hit(self.keys(), key@, i as int);
                }
                self.entries.remove(i);
                return ;
            }
            i += 1;
        }
        proof {
            lemma_key_index_miss(self.keys(), key@);
        }
    }

    /// Whether `key` currently has a channel.
    pub fn has_channel(&self, key: &String) -> (r: bool)
        ensures
            r == (key_index(self.keys(), key@) is Some),
    {
        let n = self.entries.len();
        let mut i: usize = 0;
        while i < n
            invariant
                n == self.entries.len(),
                0 <= i <= n,
                forall|j: int| 0 <= j < i ==> self.entries@[j].key@ != key@,
            decreases n - i,
        {
            if self.entries[i].key == *key {
                proof {
                    lemma_key_index_hit(self.keys(), key@, i as int);
                }
                return true;
            }
            i += 1;
        }
        proof {
            lemma_key_index_miss(self.keys(), key@);
        }
        false
    }
}

/// The engine's channels: per quiz, one for question-advance events
/// and one for leaderboard updates.
pub struct NotificationBroker {
    pub questions: ChannelRegistry<Question>,
    pub leaderboards: ChannelRegistry<Leaderboard>,
}

impl NotificationBroker {
    /// Both registries have at most one channel per quiz.
    pub open spec fn wf(self) -> bool {
        self.questions.wf() && self.leaderboards.wf()
    }

    /// A broker with no channels.
    pub fn new() -> (b: NotificationBroker)
        ensures
            b.wf(),
            b.questions.keys() == Seq::<Seq<char>>::empty(),
            b.leaderboards.keys() == Seq::<Seq<char>>::empty(),
    {
        NotificationBroker { questions: ChannelRegistry::new(), leaderboards: ChannelRegistry::new() }
    }

    /// Attach to `quiz_id`'s question-advance channel.
    pub fn subscribe_questions(&mut self, quiz_id: &String) -> (rx: Receiver<Question>)
        requires
            old(self).wf(),
        ensures
            final(self).wf(),
            final(self).leaderboards == old(self).leaderboards,
            key_index(old(self).questions.keys(), quiz_id@) is Some ==> *final(self) == *old(self),
            key_index(old(self).questions.keys(), quiz_id@) is None
                ==> final(self).questions.entries@.len() == old(self).questions.entries@.len() + 1
                && final(self).questions.entries@.drop_last() == old(self).questions.entries@
                && final(self).questions.entries@.last().key@ == quiz_id@,
    {
        self.questions.subscribe(quiz_id)
    }

    /// Attach to `quiz_id`'s leaderboard-update channel.
    pub fn subscribe_leaderboard(&mut self, quiz_id: &String) -> (rx: Receiver<Leaderboard>)
        requires
            old(self).wf(),
        ensures
            final(self).wf(),
            final(self).questions == old(self).questions,
            key_index(old(self).leaderboards.keys(), quiz_id@) is Some
                ==> *final(self) == *old(self),
            key_index(old(self).leaderboards.keys(), quiz_id@) is None
                ==> final(self).leaderboards.entries@.len() == old(
                self,
            ).leaderboards.entries@.len() + 1 && final(self).leaderboards.entries@.drop_last()
                == old(self).leaderboards.entries@
                && final(self).leaderboards.entries@.last().key@ == quiz_id@,
    {
        self.leaderboards.subscribe(quiz_id)
    }

    /// Publish a just-revealed question, best-effort.
    pub fn publish_question(&self, quiz_id: &String, question: Question) {
        self.questions.publish(quiz_id, question);
    }

    /// Publish a fresh leaderboard, best-effort.
    pub fn publish_leaderboard(&self, quiz_id: &String, leaderboard: Leaderboard) {
        self.leaderboards.publish(quiz_id, leaderboard);
    }

    /// Retire both of `quiz_id`'s channels: at the end of a cycle
    /// every subscriber's stream ends deterministically.
    pub fn retire_quiz(&mut self, quiz_id: &String)
        requires
            old(self).wf(),
        ensures
            final(self).wf(),
            key_index(final(self).questions.keys(), quiz_id@) is None,
            key_index(final(self).leaderboards.keys(), quiz_id@) is None,
    {
        self.questions.retire(quiz_id);
        self.leaderboards.retire(quiz_id);
        proof {
            lemma_retired_key_absent::<Question>(old(self).questions, self.questions, quiz_id@);
            lemma_retired_key_absent::<Leaderboard>(
                old(self).leaderboards,
                self.leaderboards,
                quiz_id@,
            );
        }
    }
}

proof fn lemma_retired_key_absent<T: Clone>(
    before: ChannelRegistry<T>,
    after: ChannelRegistry<T>,
    id: Seq<char>,
)
    requires
        before.wf(),
        key_index(before.keys(), id) is None ==> after == before,
        key_index(before.keys(), id) matches Some(i) ==> after.entries@ == before.entries@.remove(
            i,
        ),
    ensures
        key_index(after.keys(), id) is None,
{
    lemma_key_index_props(before.keys(), id);
    match key_index(before.keys(), id) {
        None => {
            lemma_key_index_miss(after.keys(), id);
        },
        Some(i) => {
            assert forall|j: int| 0 <= j < after.keys().len() implies after.keys()[j] != id by {
                if j < i {
                    assert(after.entries@[j] == before.entries@[j]);
                } else {
                    assert(after.entries@[j] == before.entries@[j + 1]);
                }
            }
            lemma_key_index_miss(after.keys(), id);
        },
    }
}

proof fn lemma_key_index_props(keys: Seq<Seq<char>>, id: Seq<char>)
    ensures
        key_index(keys, id) matches Some(i) ==> 0 <= i < keys.len() && keys[i] == id && (forall|
            j: int,
        |
            0 <= j < i ==> keys[j] != id),
        key_index(keys, id) is None ==> forall|j: int| 0 <= j < keys.len() ==> keys[j] != id,
    decreases keys.len(),
{
    if keys.len() > 0 && keys[0] != id {
        lemma_key_index_props(keys.drop_first(), id);
        match key_index(keys.drop_first(), id) {
            Some(i) => {
                assert(keys.drop_first()[i] == keys[i + 1]);
                assert forall|j: int| 0 <= j < i + 1 implies keys[j] != id by {
                    if j > 0 {
                        assert(keys.drop_first()[j - 1] == keys[j]);
                    }
                }
            },
            None => {
                assert forall|j: int| 0 <= j < keys.len() implies keys[j] != id by {
                    if j > 0 {
                        assert(keys.drop_first()[j - 1] == keys[j]);
                    }
                }
            },
        }
    }
}

} // verus!
