//! One board: a short alphanumeric name, its settings, and its topics. The
//! board serves snapshots of the `subject.txt` artifact and carries the write
//! path's re-entry points — open a topic, create one, bump a post count.

use vstd::prelude::*;

use crate::cacheable::Cacheable;
use crate::datetime::now_unix;
use crate::linked_hash_map::{key_index, lemma_full_key_range, seq_contains_key};
use crate::settings::Settings;
use crate::topic::Topic;
use crate::topics::{subject_bytes, Topics, TopicsBuilder};
use crate::validator::spec_is_alphanum;

verus! {

pub struct Board {
    pub id: Vec<u8>,
    pub settings: Settings,
    pub topics: Topics,
}

pub struct BoardBuilder {
    pub id: Vec<u8>,
    pub settings: Settings,
    pub topics_builder: TopicsBuilder,
}

/// A valid board name: non-empty ASCII alphanumeric.
pub open spec fn valid_board_id(id: Seq<u8>) -> bool {
    id.len() > 0 && forall|i: int| 0 <= i < id.len() ==> spec_is_alphanum(#[trigger] id[i])
}

impl Board {
    pub open spec fn wf(&self) -> bool {
        valid_board_id(self.id@) && self.topics.wf()
    }

    pub fn build(id: Vec<u8>, settings: Settings) -> (r: BoardBuilder)
        ensures
            r.id == id,
            r.settings == settings,
            r.topics_builder.map@ =~= Seq::<(u64, Topic)>::empty(),
            r.topics_builder.map.wf(),
    {
        BoardBuilder { id, settings, topics_builder: Topics::build() }
    }

    pub fn id(&self) -> (r: &Vec<u8>)
        ensures
            r == &self.id,
    {
        &self.id
    }

    pub fn settings(&self) -> (r: &Settings)
        ensures
            r == &self.settings,
    {
        &self.settings
    }

    /// A snapshot of the `subject.txt` artifact: the body the current topic
    /// map derives, under the validators the slot carries. The snapshot is
    /// independent of the slot, so later invalidations do not touch it.
    pub fn subject_txt(&mut self) -> (r: Cacheable<Vec<u8>>)
        requires
            old(self).wf(),
        ensures
            final(self).wf(),
            final(self).id == old(self).id,
            final(self).settings == old(self).settings,
            final(self).topics.map == old(self).topics.map,
            r.body@ == subject_bytes(old(self).topics.map@),
            r.metadata.etag@ == final(self).topics.subject_txt.metadata.etag@,
            r.metadata.modified@ == final(self).topics.subject_txt.metadata.modified@,
            r.metadata.mtime == final(self).topics.subject_txt.metadata.mtime,
            r.metadata.wf(),
    {
        let c = self.topics.subject_txt();
        c.clone()
    }

    pub fn topic(&self, key: u64) -> (r: Option<&Topic>)
        requires
            self.wf(),
        ensures
            r is Some <==> seq_contains_key(self.topics.map@, key),
            r is Some ==> r == Some(&self.topics.map@[key_index(self.topics.map@, key)].1),
    {
        self.topics.get(key)
    }

    /// Mutable access to one topic; the caller that changes it must reset the
    /// artifact, as `increment_post_count` does.
    pub fn topic_mut(&mut self, key: u64) -> (r: &mut Topic)
        requires
            old(self).wf(),
            seq_contains_key(old(self).topics.map@, key),
        ensures
            *r == old(self).topics.map@[key_index(old(self).topics.map@, key)].1,
            final(self).topics.map@ == old(self).topics.map@.update(
                key_index(old(self).topics.map@, key),
                (key, *final(r)),
            ),
            final(self).topics.map.wf(),
            final(self).topics.subject_txt == old(self).topics.subject_txt,
            final(self).topics.fresh == old(self).topics.fresh,
            final(self).id == old(self).id,
            final(self).settings == old(self).settings,
    {
        self.topics.get_mut(key)
    }

    /// Creates a blank topic under a fresh key at the given instant: the key
    /// is the instant's Unix second, incremented past any key already taken.
    /// The artifact is invalidated, as for any insertion.
    pub fn create_topic_at(&mut self, title: Vec<u8>, now_sec: u64) -> (r: u64)
        requires
            old(self).wf(),
            now_sec + old(self).topics.map@.len() < u64::MAX,
        ensures
            final(self).wf(),
            r >= now_sec,
            !seq_contains_key(old(self).topics.map@, r),
            forall|j: u64| now_sec <= j < r ==> seq_contains_key(old(self).topics.map@, j),
            final(self).topics.map@ == seq![(r, Topic { id: r, title: title, post_count: 0 })]
                + old(self).topics.map@,
            !final(self).topics.fresh,
            final(self).id == old(self).id,
            final(self).settings == old(self).settings,
    {
        let ghost entries = self.topics.map@;
        let mut id: u64 = now_sec;
        while self.topics.contains_key(id)
            invariant
                self.topics.map@ == entries,
                *self == *old(self),
                now_sec + entries.len() < u64::MAX,
                now_sec <= id,
                id <= now_sec + entries.len(),
                forall|j: u64| now_sec <= j < id ==> seq_contains_key(entries, j),
            decreases now_sec + entries.len() - id,
        {
            proof {
                assert(seq_contains_key(entries, id));
                assert(forall|j: u64| now_sec <= j < id + 1 ==> seq_contains_key(entries, j));
                lemma_full_key_range(entries, now_sec, (id + 1) as u64);
            }
            id = id + 1;
        }
        let ret = self.topics.insert(Topic::new(id, title, 0));
        proof {
            assert(ret is None);
        }
        id
    }

    /// Creates a blank topic keyed by the present Unix second (or by the next
    /// free key after it); what the clock reports decides the key, everything
    /// else is as `create_topic_at` has it.
    pub fn create_topic(&mut self, title: Vec<u8>) -> (r: u64)
        requires
            old(self).wf(),
            old(self).topics.map@.len() < 0x7fffffffffffffff,
        ensures
            final(self).wf(),
            !seq_contains_key(old(self).topics.map@, r),
            final(self).topics.map@ == seq![(r, Topic { id: r, title: title, post_count: 0 })]
                + old(self).topics.map@,
            !final(self).topics.fresh,
            final(self).id == old(self).id,
            final(self).settings == old(self).settings,
    {
        let (sec, _ns) = now_unix();
        let base: u64 = if sec < 0 {
            0
        } else {
            sec as u64
        };
        self.create_topic_at(title, base)
    }

    /// Bumps one topic's post count after its `.dat` line has been written,
    /// and invalidates the artifact.
    pub fn increment_post_count(&mut self, key: u64)
        requires
            old(self).wf(),
            seq_contains_key(old(self).topics.map@, key),
            old(self).topics.map@[key_index(old(self).topics.map@, key)].1.post_count < usize::MAX,
        ensures
            final(self).wf(),
            final(self).topics.map@ == old(self).topics.map@.update(
                key_index(old(self).topics.map@, key),
                (
                    key,
                    Topic {
                        id: old(self).topics.map@[key_index(old(self).topics.map@, key)].1.id,
                        title: old(self).topics.map@[key_index(old(self).topics.map@, key)].1.title,
                        post_count: (old(self).topics.map@[key_index(
                            old(self).topics.map@,
                            key,
                        )].1.post_count + 1) as usize,
                    },
                ),
            ),
            !final(self).topics.fresh,
            final(self).id == old(self).id,
            final(self).settings == old(self).settings,
    {
        self.topics.increment_post_count(key);
    }
}

impl BoardBuilder {
    pub fn new(id: Vec<u8>, settings: Settings) -> (r: Self)
        ensures
            r.id == id,
            r.settings == settings,
            r.topics_builder.map@ =~= Seq::<(u64, Topic)>::empty(),
            r.topics_builder.map.wf(),
    {
        BoardBuilder { id, settings, topics_builder: TopicsBuilder::new() }
    }

    /// Adds a topic found on disk at start-up.
    pub fn topic(&mut self, key: u64, topic: Topic)
        requires
            old(self).topics_builder.map.wf(),
        ensures
            final(self).id == old(self).id,
            final(self).settings == old(self).settings,
            final(self).topics_builder.map.wf(),
            seq_contains_key(old(self).topics_builder.map@, key) ==> final(self).topics_builder.map@ == old(self).topics_builder.map@,
            !seq_contains_key(old(self).topics_builder.map@, key) ==> final(self).topics_builder.map@ == seq![(key, topic)] + old(self).topics_builder.map@,
    {
        self.topics_builder.insert(key, topic);
    }

    pub fn finish(self) -> (r: Board)
        requires
            self.topics_builder.map.wf(),
            valid_board_id(self.id@),
        ensures
            r.id == self.id,
            r.settings == self.settings,
            r.topics.map@ == self.topics_builder.map@,
            r.wf(),
            !r.topics.fresh,
    {
        Board { id: self.id, settings: self.settings, topics: self.topics_builder.finish() }
    }
}

} // verus!
