//! The memoization cache around the aggregator.
//!
//! The cache is keyed by the exact event sequence: a pass whose events
//! equal a stored key, value for value and in order, returns the stored
//! index and recomputes nothing; any other pass runs the aggregator and
//! stores the result, whole, once it is complete. The cache is addressed
//! purely by its input, so two calls with identical input observe the
//! same output — the stated contract says the result always equals the
//! direct aggregation of the events against the snapshot.

use vstd::prelude::*;

use crate::indexer::index_messages;
use crate::indexer::spec_aggregate;
use crate::types::message_views;
use crate::types::string_eq;
use crate::types::Data;
use crate::types::FileSnapshot;
use crate::types::Index;
use crate::types::Message;
use crate::types::opt_view;
use crate::types::opt_string_eq;

verus! {

/// Whether two line payloads have the same ghost image.
fn data_eq(a: &Data, b: &Data) -> (r: bool)
    ensures
        r == (a@ == b@),
{
    match (a, b) {
        (Data::Text { text: x }, Data::Text { text: y }) => string_eq(x, y),
        (Data::Bytes, Data::Bytes) => true,
        _ => false,
    }
}

/// Whether two events have the same ghost image.
fn message_eq(a: &Message, b: &Message) -> (r: bool)
    ensures
        r == (a@ == b@),
{
    match (a, b) {
        (Message::Begin { path: pa }, Message::Begin { path: pb }) => opt_string_eq(pa, pb),
        (Message::Match { path: pa, lines: la }, Message::Match { path: pb, lines: lb }) => {
            opt_string_eq(pa, pb) && data_eq(la, lb)
        },
        (Message::Context { path: pa, lines: la }, Message::Context { path: pb, lines: lb }) => {
            opt_string_eq(pa, pb) && data_eq(la, lb)
        },
        (Message::End, Message::End) => true,
        _ => false,
    }
}

/// Whether two event sequences have the same ghost image, value for
/// value and in order.
fn messages_eq(a: &Vec<Message>, b: &Vec<Message>) -> (r: bool)
    ensures
        r == (message_views(a@) == message_views(b@)),
{
    if a.len() != b.len() {
        proof {
            assert(message_views(a@).len() != message_views(b@).len());
        }
        return false;
    }
    let mut i: usize = 0;
    while i < a.len()
        invariant
            i <= a.len(),
            a@.len() == b@.len(),
            forall|j: int| 0 <= j < i ==> a@[j]@ == b@[j]@,
        decreases a.len() - i,
    {
        if !message_eq(&a[i], &b[i]) {
            proof {
                assert(message_views(a@)[i as int] == a@[i as int]@);
                assert(message_views(b@)[i as int] == b@[i as int]@);
            }
            return false;
        }
        i = i + 1;
    }
    proof {
        assert(message_views(a@) =~= message_views(b@));
    }
    true
}

/// An exact copy of a line payload.
fn clone_data(d: &Data) -> (r: Data)
    ensures
        r@ == d@,
{
    match d {
        Data::Text { text } => Data::Text { text: text.clone() },
        Data::Bytes => Data::Bytes,
    }
}

/// An exact copy of an event.
fn clone_message(m: &Message) -> (r: Message)
    ensures
        r@ == m@,
{
    match m {
        Message::Begin { path } => Message::Begin { path: crate::types::clone_opt_string(path) },
        Message::Match { path, lines } => Message::Match {
            path: crate::types::clone_opt_string(path),
            lines: clone_data(lines),
        },
        Message::Context { path, lines } => Message::Context {
            path: crate::types::clone_opt_string(path),
            lines: clone_data(lines),
        },
        Message::End => Message::End,
    }
}

/// An exact copy of an event sequence.
fn clone_messages(v: &Vec<Message>) -> (r: Vec<Message>)
    ensures
        message_views(r@) == message_views(v@),
{
    let mut r: Vec<Message> = Vec::new();
    let mut i: usize = 0;
    while i < v.len()
        invariant
            i <= v.len(),
            r@.len() == i,
            forall|j: int| 0 <= j < i ==> r@[j]@ == v@[j]@,
        decreases v.len() - i,
    {
        r.push(clone_message(&v[i]));
        i = i + 1;
    }
    proof {
        assert(message_views(r@) =~= message_views(v@));
    }
    r
}

/// The memoizing wrapper around the aggregator: stored passes, keyed by
/// their full event sequence.
pub struct IndexCache {
    entries: Vec<(Vec<Message>, Index)>,
}

impl View for IndexCache {
    type V = Seq<(Seq<crate::types::MessageView>, Seq<(Seq<char>, crate::types::ArticleView)>)>;

    closed spec fn view(&self) -> Seq<
        (Seq<crate::types::MessageView>, Seq<(Seq<char>, crate::types::ArticleView)>),
    > {
        self.entries@.map_values(
            |p: (Vec<Message>, Index)| (message_views(p.0@), p.1@),
        )
    }
}

impl IndexCache {
    /// Every stored result is the aggregation of its own key against the
    /// given snapshot — the sense in which the cache is only a memo of
    /// the aggregator, never a source of other answers.
    pub open spec fn consistent_with(&self, files: Seq<(Seq<char>, Seq<char>)>) -> bool {
        forall|x: int|
            0 <= x < self@.len() ==> (#[trigger] self@[x]).1 == spec_aggregate(self@[x].0, files)
    }

    /// An empty cache, consistent with every snapshot.
    pub fn new() -> (r: IndexCache)
        ensures
            r@.len() == 0,
            forall|files: Seq<(Seq<char>, Seq<char>)>| #[trigger] r.consistent_with(files),
    {
        let r = IndexCache { entries: Vec::new() };
        proof {
            assert(r@ =~= Seq::<
                (Seq<crate::types::MessageView>, Seq<(Seq<char>, crate::types::ArticleView)>),
            >::empty());
        }
        r
    }

    /// Aggregates through the memo: a stored pass over an equal event
    /// sequence is returned as it stands; otherwise the aggregator runs
    /// and its complete result is stored before being returned. Either
    /// way the caller receives exactly what direct aggregation against
    /// the snapshot yields.
    pub fn index_cached(&mut self, messages: &Vec<Message>, files: &FileSnapshot) -> (r: Index)
        requires
            old(self).consistent_with(files@),
        ensures
            final(self).consistent_with(files@),
            r@ == spec_aggregate(message_views(messages@), files@),
    {
        let mut i: usize = 0;
        while i < self.entries.len()
            invariant
                i <= self.entries.len(),
                self@ == old(self)@,
                self.entries.len() == self@.len(),
                old(self).consistent_with(files@),
            decreases self.entries.len() - i,
        {
            if messages_eq(&self.entries[i].0, messages) {
                proof {
                    assert(self@[i as int] == (
                        message_views(self.entries@[i as int].0@),
                        self.entries@[i as int].1@,
                    ));
                    assert(self@[i as int].1 == spec_aggregate(self@[i as int].0, files@));
                }
                return self.entries[i].1.duplicate();
            }
            i = i + 1;
        }
        let computed = index_messages(messages, files);
        let stored = computed.duplicate();
        let key = clone_messages(messages);
        let ghost pre = self@;
        self.entries.push((key, stored));
        proof {
            assert(self@ =~= pre.push((message_views(messages@), computed@)));
            assert forall|x: int| 0 <= x < self@.len() implies (#[trigger] self@[x]).1
                == spec_aggregate(self@[x].0, files@) by {
                if x < pre.len() {
                    assert(self@[x] == pre[x]);
                } else {
                    assert(self@[x] == (message_views(messages@), computed@));
                }
            }
        }
        computed
    }
}

} // verus!
