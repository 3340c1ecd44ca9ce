//! Where the replies of a thread go.
use crate::bridge::router::{Forward, ForwardView};
use crate::text::same;
use vstd::prelude::*;
use vstd::string::*;

verus! {

/// Whom a reply goes to.
#[derive(Debug)]
pub struct ReplyTarget {
    /// The id of the chat or of the user.
    pub receive_id: String,
    /// What kind of id that is: `chat_id` or `open_id`.
    pub receive_id_type: String,
}

/// The channel and the thread that a reply comes from.
pub type ThreadKey = (Seq<char>, Seq<char>);

/// The id that a reply goes to, and its kind.
pub type TargetView = (Seq<char>, Seq<char>);

impl View for ReplyTarget {
    type V = TargetView;

    open spec fn view(&self) -> TargetView {
        (self.receive_id@, self.receive_id_type@)
    }
}

/// One thread, and whom its replies go to.
#[derive(Debug)]
pub struct ReplyEntry {
    /// The channel.
    pub channel: String,
    /// The thread.
    pub thread: String,
    /// Whom its replies go to.
    pub target: ReplyTarget,
}

/// Whom the replies of each thread go to.
#[derive(Debug)]
pub struct ReplyTargets {
    /// The threads; no thread of a channel comes twice.
    pub entries: Vec<ReplyEntry>,
}

/// What the threads are.
pub open spec fn keys_of(entries: Seq<ReplyEntry>) -> Seq<ThreadKey> {
    entries.map_values(|entry: ReplyEntry| (entry.channel@, entry.thread@))
}

/// What the threads and their targets are, by thread.
pub open spec fn targets_of(entries: Seq<ReplyEntry>) -> Map<ThreadKey, TargetView>
    decreases entries.len(),
{
    if entries.len() == 0 {
        Map::empty()
    } else {
        let last = entries.last();
        targets_of(entries.drop_last()).insert((last.channel@, last.thread@), last.target@)
    }
}

impl View for ReplyTargets {
    type V = Map<ThreadKey, TargetView>;

    open spec fn view(&self) -> Map<ThreadKey, TargetView> {
        targets_of(self.entries@)
    }
}

impl ReplyTargets {
    /// No thread of a channel comes twice.
    pub open spec fn well_formed(&self) -> bool {
        keys_of(self.entries@).no_duplicates()
    }
}

proof fn lemma_targets(entries: Seq<ReplyEntry>)
    requires
        keys_of(entries).no_duplicates(),
    ensures
        forall|i: int|
            0 <= i < entries.len() ==> targets_of(entries).dom().contains(
                #[trigger] keys_of(entries)[i],
            ) && targets_of(entries)[keys_of(entries)[i]] == entries[i].target@,
        forall|key: ThreadKey| #[trigger]
            targets_of(entries).dom().contains(key) ==> keys_of(entries).contains(key),
    decreases entries.len(),
{
    if entries.len() > 0 {
        let before = entries.drop_last();
        let keys = keys_of(entries);
        assert(keys_of(before) =~= keys.drop_last());
        lemma_targets(before);
        assert forall|i: int| 0 <= i < entries.len() implies targets_of(entries).dom().contains(
            #[trigger] keys[i],
        ) && targets_of(entries)[keys[i]] == entries[i].target@ by {
            if i < before.len() {
                assert(keys_of(before)[i] == keys[i]);
                assert(keys[i] != keys[entries.len() - 1]);
            }
        }
        assert forall|key: ThreadKey| #[trigger]
            targets_of(entries).dom().contains(key) implies keys.contains(key) by {
            if key == keys[entries.len() - 1] {
            } else {
                assert(targets_of(before).dom().contains(key));
                let k = choose|k: int| 0 <= k < keys_of(before).len() && keys_of(before)[k] == key;
                assert(keys[k] == key);
            }
        }
    }
}

impl ReplyTargets {
    /// No thread.
    pub fn new() -> (r: ReplyTargets)
        ensures
            r.well_formed(),
            r@ == Map::<ThreadKey, TargetView>::empty(),
    {
        ReplyTargets { entries: Vec::new() }
    }

    /// The entry of the thread.
    fn position(&self, channel: &str, thread: &str) -> (r: Option<usize>)
        requires
            self.well_formed(),
        ensures
            match r {
                Some(i) => i < self.entries@.len() && keys_of(self.entries@)[i as int] == (
                    channel@,
                    thread@,
                ) && self@.dom().contains((channel@, thread@)) && self@[(channel@, thread@)]
                    == self.entries@[i as int].target@,
                None => !keys_of(self.entries@).contains((channel@, thread@)) && !self@.dom().contains(
                    (channel@, thread@),
                ),
            },
    {
        proof {
            lemma_targets(self.entries@);
        }
        let ghost keys = keys_of(self.entries@);
        let mut i: usize = 0;
        while i < self.entries.len()
            invariant
                keys == keys_of(self.entries@),
                i <= self.entries@.len(),
                forall|k: int| 0 <= k < i ==> #[trigger] keys[k] != (channel@, thread@),
                forall|k: int|
                    0 <= k < self.entries@.len() ==> self@.dom().contains(#[trigger] keys[k])
                        && self@[keys[k]] == self.entries@[k].target@,
                forall|key: ThreadKey| #[trigger]
                    self@.dom().contains(key) ==> keys.contains(key),
            decreases self.entries@.len() - i,
        {
            let entry = &self.entries[i];
            assert(keys[i as int] == (entry.channel@, entry.thread@));
            if same(entry.channel.as_str(), channel) && same(entry.thread.as_str(), thread) {
                return Some(i);
            }
            i += 1;
        }
        None
    }

    /// Remembers where the replies of a thread go: to where the latest message
    /// for it came from.
    pub fn remember(&mut self, forward: &Forward)
        requires
            old(self).well_formed(),
        ensures
            final(self).well_formed(),
            final(self)@ == old(self)@.insert(
                (forward.channel@, forward.thread@),
                (forward.receive_id@, forward.receive_id_type@),
            ),
    {
        let ghost before = *self;
        let target = ReplyTarget {
            receive_id: forward.receive_id.clone(),
            receive_id_type: forward.receive_id_type.clone(),
        };
        let entry = ReplyEntry {
            channel: forward.channel.clone(),
            thread: forward.thread.clone(),
            target,
        };
        let ghost key = (forward.channel@, forward.thread@);
        match self.position(forward.channel.as_str(), forward.thread.as_str()) {
            Some(i) => {
                self.entries[i] = entry;
                proof {
                    assert(keys_of(self.entries@) =~= keys_of(before.entries@));
                    lemma_targets(before.entries@);
                    lemma_targets(self.entries@);
                    let keys = keys_of(self.entries@);
                    assert forall|k: ThreadKey| self@.dom().contains(k) == before@.insert(
                        key,
                        entry.target@,
                    ).dom().contains(k) by {
                        if before@.dom().contains(k) {
                            let n = choose|n: int| 0 <= n < keys.len() && keys[n] == k;
                            assert(self@.dom().contains(keys[n]));
                        }
                        if self@.dom().contains(k) {
                            let n = choose|n: int| 0 <= n < keys.len() && keys[n] == k;
                            assert(before@.dom().contains(keys_of(before.entries@)[n]));
                        }
                        assert(self@.dom().contains(keys[i as int]));
                    }
                    assert forall|k: ThreadKey| self@.dom().contains(k) implies self@[k]
                        == before@.insert(key, entry.target@)[k] by {
                        let n = choose|n: int| 0 <= n < keys.len() && keys[n] == k;
                        assert(self@[keys[n]] == self.entries@[n].target@);
                        assert(before@[keys_of(before.entries@)[n]] == before.entries@[n].target@);
                        if n != i {
                            assert(keys[n] != keys[i as int]);
                        }
                    }
                    assert(self@ =~= before@.insert(key, entry.target@));
                }
            },
            None => {
                self.entries.push(entry);
                proof {
                    let keys = keys_of(self.entries@);
                    assert(keys =~= keys_of(before.entries@).push(key));
                    assert forall|a: int, b: int|
                        0 <= a < keys.len() && 0 <= b < keys.len() && a != b implies keys[a]
                        != keys[b] by {
                        if a == before.entries@.len() {
                            assert(keys_of(before.entries@).contains(
                                keys_of(before.entries@)[b],
                            ));
                        } else if b == before.entries@.len() {
                            assert(keys_of(before.entries@).contains(
                                keys_of(before.entries@)[a],
                            ));
                        }
                    }
                    assert(self.entries@.drop_last() =~= before.entries@);
                }
            },
        }
    }

    /// Whom a reply of the thread goes to.
    pub fn target(&self, channel: &str, thread: &str) -> (r: Option<&ReplyTarget>)
        requires
            self.well_formed(),
        ensures
            match r {
                Some(target) => self@.dom().contains((channel@, thread@)) && self@[(
                    channel@,
                    thread@,
                )] == target@,
                None => !self@.dom().contains((channel@, thread@)),
            },
    {
        match self.position(channel, thread) {
            Some(i) => Some(&self.entries[i].target),
            None => None,
        }
    }

    /// The threads whose replies go to the chat or the user `receive_id`.
    pub fn threads_of(&self, receive_id: &str) -> (r: Vec<(String, String)>)
        requires
            self.well_formed(),
        ensures
            forall|key: ThreadKey| #[trigger]
                thread_keys(r@).contains(key) <==> self@.dom().contains(key) && self@[key].0
                    == receive_id@,
            thread_keys(r@).no_duplicates(),
    {
        proof {
            lemma_targets(self.entries@);
        }
        let ghost keys = keys_of(self.entries@);
        let mut out: Vec<(String, String)> = Vec::new();
        let mut i: usize = 0;
        while i < self.entries.len()
            invariant
                keys == keys_of(self.entries@),
                keys.no_duplicates(),
                i <= self.entries@.len(),
                forall|key: ThreadKey| #[trigger]
                    thread_keys(out@).contains(key) <==> exists|k: int|
                        0 <= k < i && #[trigger] keys[k] == key
                            && self.entries@[k].target.receive_id@ == receive_id@,
                thread_keys(out@).no_duplicates(),
            decreases self.entries@.len() - i,
        {
            let entry = &self.entries[i];
            assert(keys[i as int] == (entry.channel@, entry.thread@));
            if same(entry.target.receive_id.as_str(), receive_id) {
                let ghost before = thread_keys(out@);
                let ghost key = (entry.channel@, entry.thread@);
                out.push((entry.channel.clone(), entry.thread.clone()));
                proof {
                    let now = thread_keys(out@);
                    assert(now =~= before.push(key));
                    assert(!before.contains(key)) by {
                        if before.contains(key) {
                            let k = choose|k: int|
                                0 <= k < i && #[trigger] keys[k] == key
                                    && self.entries@[k].target.receive_id@ == receive_id@;
                            assert(keys[k] == keys[i as int]);
                        }
                    }
                    assert forall|a: int, b: int|
                        0 <= a < now.len() && 0 <= b < now.len() && a != b implies now[a]
                        != now[b] by {
                        if a == before.len() {
                            assert(before.contains(before[b]));
                        } else if b == before.len() {
                            assert(before.contains(before[a]));
                        }
                    }
                    assert forall|other: ThreadKey| #[trigger] now.contains(other) <==> exists|
                        k: int,
                    |
                        0 <= k < i + 1 && #[trigger] keys[k] == other
                            && self.entries@[k].target.receive_id@ == receive_id@ by {
                        if now.contains(other) {
                            if other == key {
                                assert(keys[i as int] == other);
                            } else {
                                let n = choose|n: int| 0 <= n < now.len() && now[n] == other;
                                assert(before[n] == other);
                                assert(before.contains(other));
                            }
                        }
                        if exists|k: int|
                            0 <= k < i + 1 && #[trigger] keys[k] == other
                                && self.entries@[k].target.receive_id@ == receive_id@ {
                            let k = choose|k: int|
                                0 <= k < i + 1 && #[trigger] keys[k] == other
                                    && self.entries@[k].target.receive_id@ == receive_id@;
                            if k == i {
                                assert(now[before.len() as int] == other);
                            } else {
                                assert(before.contains(other));
                                let n = choose|n: int| 0 <= n < before.len() && before[n] == other;
                                assert(now[n] == other);
                            }
                        }
                    }
                }
            }
            i += 1;
        }
        proof {
            assert forall|key: ThreadKey| #[trigger]
                thread_keys(out@).contains(key) <==> self@.dom().contains(key) && self@[key].0
                    == receive_id@ by {
                if thread_keys(out@).contains(key) {
                    let k = choose|k: int|
                        0 <= k < self.entries@.len() && #[trigger] keys[k] == key
                            && self.entries@[k].target.receive_id@ == receive_id@;
                    assert(self@.dom().contains(keys[k]));
                }
                if self@.dom().contains(key) && self@[key].0 == receive_id@ {
                    let k = choose|k: int| 0 <= k < keys.len() && keys[k] == key;
                    assert(self@[keys[k]] == self.entries@[k].target@);
                }
            }
        }
        out
    }
}

/// The channels and threads of a list.
pub open spec fn thread_keys(threads: Seq<(String, String)>) -> Seq<ThreadKey> {
    threads.map_values(|thread: (String, String)| (thread.0@, thread.1@))
}

/// Whether a reply goes to a user, and not to a chat.
pub fn goes_to_user(receive_id_type: &str) -> (r: bool)
    ensures
        r == (receive_id_type@ == "open_id"@),
{
    same(receive_id_type, "open_id")
}

/// What is known of the replies once a message has been handed on.
pub open spec fn remembered(
    targets: Map<ThreadKey, TargetView>,
    forward: ForwardView,
) -> Map<ThreadKey, TargetView> {
    targets.insert(
        (forward.channel, forward.thread),
        (forward.receive_id, forward.receive_id_type),
    )
}

/// A reply goes to where the latest message for its thread came from, and what
/// is known of other threads stays.
pub proof fn law_replies_go_back(
    targets: Map<ThreadKey, TargetView>,
    forward: ForwardView,
    other: ThreadKey,
)
    ensures
        remembered(targets, forward).dom().contains((forward.channel, forward.thread)),
        remembered(targets, forward)[(forward.channel, forward.thread)] == (
            forward.receive_id,
            forward.receive_id_type,
        ),
        other != (forward.channel, forward.thread) ==> remembered(targets, forward).dom().contains(
            other,
        ) == targets.dom().contains(other) && remembered(targets, forward)[other] == targets[other],
{
}

} // verus!
