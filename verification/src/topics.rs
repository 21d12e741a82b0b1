//! The mutable thread collection of one board, together with its derived
//! `subject.txt` artifact. Every mutation replaces the artifact slot with a
//! freshly stamped empty one and marks it for regeneration; the next read
//! materializes the bytes from the map. A reader therefore never sees a stale
//! body under a fresh tag.

use vstd::prelude::*;

use crate::bytes::push_bytes;
use crate::cacheable::{etag_bytes, modified_repr, Cacheable, Metadata};
use crate::decimal::{dec_digits, push_u64_dec};
use crate::linked_hash_map::{key_index, seq_contains_key, LinkedHashMap};
use crate::topic::Topic;

verus! {

/// Identity tag under which the `subject.txt` artifact is stamped; any fixed
/// process-wide number serves, it only feeds the tag derivation.
pub const SUBJECT_TXT_ID: u64 = 0x7375626a;

/// Size hint for one more `subject.txt` line: about 24 bytes of framing plus
/// a typical title.
const STANDARD_LINE_LEN: usize = 128;

pub struct Topics {
    pub map: LinkedHashMap<Topic>,
    pub subject_txt: Cacheable<Vec<u8>>,
    /// Whether the artifact body currently matches the map; `false` means the
    /// next read must regenerate it.
    pub fresh: bool,
}

pub struct TopicsBuilder {
    pub map: LinkedHashMap<Topic>,
}

/// The bytes `".dat<>"`.
pub open spec fn dat_sep() -> Seq<u8> {
    seq![46u8, 100u8, 97u8, 116u8, 60u8, 62u8]
}

/// The bytes `" ("`.
pub open spec fn count_open() -> Seq<u8> {
    seq![32u8, 40u8]
}

/// The bytes `")\n"`.
pub open spec fn count_close() -> Seq<u8> {
    seq![41u8, 10u8]
}

/// One `subject.txt` line: `{id}.dat<>{title} ({post_count})\n`.
pub open spec fn subject_line(id: u64, title: Seq<u8>, pc: nat) -> Seq<u8> {
    dec_digits(id as nat) + dat_sep() + title + count_open() + dec_digits(pc) + count_close()
}

/// The `subject.txt` body from entry `i` on: one line per topic, in map
/// order.
pub open spec fn subject_bytes_from(entries: Seq<(u64, Topic)>, i: int) -> Seq<u8>
    decreases entries.len() - i
        when 0 <= i <= entries.len()
{
    if i >= entries.len() {
        Seq::empty()
    } else {
        subject_line(entries[i].0, entries[i].1.title@, entries[i].1.post_count as nat)
            + subject_bytes_from(entries, i + 1)
    }
}

/// The whole `subject.txt` body a topic map derives: newest-inserted (or
/// bumped) topic first, no trailing blank line.
pub open spec fn subject_bytes(entries: Seq<(u64, Topic)>) -> Seq<u8> {
    subject_bytes_from(entries, 0)
}

/// Appends one `subject.txt` line for a topic.
fn push_subject_line(out: &mut Vec<u8>, id: u64, title: &[u8], pc: usize)
    ensures
        final(out)@ == old(out)@ + subject_line(id, title@, pc as nat),
{
    push_u64_dec(out, id);
    let ghost s1 = out@;
    out.push(46);
    out.push(100);
    out.push(97);
    out.push(116);
    out.push(60);
    out.push(62);
    proof {
        assert(out@ =~= s1 + dat_sep());
    }
    push_bytes(out, title);
    let ghost s2 = out@;
    out.push(32);
    out.push(40);
    proof {
        assert(out@ =~= s2 + count_open());
    }
    push_u64_dec(out, pc as u64);
    let ghost s3 = out@;
    out.push(41);
    out.push(10);
    proof {
        assert(out@ =~= s3 + count_close());
        assert(out@ =~= old(out)@ + subject_line(id, title@, pc as nat));
    }
}


/// Two observations of the artifact over the same topic state yield
/// byte-equal buffers: a slot that claims freshness holds exactly the bytes
/// its map derives, so the body is a function of the map and cannot drift
/// while the validators stand.
pub proof fn lemma_same_state_same_bytes(a: &Topics, b: &Topics)
    requires
        a.wf(),
        b.wf(),
        a.fresh,
        b.fresh,
        a.map@ == b.map@,
    ensures
        a.subject_txt.body@ == b.subject_txt.body@,
{
}

/// No stale body is ever served under a fresh tag: every mutation marks the
/// slot for regeneration, and whenever the slot claims freshness its body is
/// exactly what the current map derives.
pub proof fn lemma_no_stale_body(t: &Topics)
    requires
        t.wf(),
    ensures
        t.fresh ==> t.subject_txt.body@ == subject_bytes(t.map@),
{
}

impl Topics {
    /// The collection invariant: distinct topic keys, validators of their
    /// fixed widths, and — whenever the slot claims to be fresh — an artifact
    /// body that is exactly what the map derives.
    pub open spec fn wf(&self) -> bool {
        &&& self.map.wf()
        &&& self.subject_txt.metadata.wf()
        &&& self.fresh ==> self.subject_txt.body@ == subject_bytes(self.map@)
    }

    pub fn build() -> (r: TopicsBuilder)
        ensures
            r.map@ =~= Seq::<(u64, Topic)>::empty(),
            r.map.wf(),
    {
        TopicsBuilder::new()
    }

    pub fn get(&self, key: u64) -> (r: Option<&Topic>)
        requires
            self.wf(),
        ensures
            r is Some <==> seq_contains_key(self.map@, key),
            r is Some ==> r == Some(&self.map@[key_index(self.map@, key)].1),
    {
        self.map.get(key)
    }

    /// Mutable access to one topic. The artifact slot is not touched, so the
    /// caller that changes the topic must reset the slot afterwards, as
    /// `increment_post_count` does.
    pub fn get_mut(&mut self, key: u64) -> (r: &mut Topic)
        requires
            old(self).wf(),
            seq_contains_key(old(self).map@, key),
        ensures
            *r == old(self).map@[key_index(old(self).map@, key)].1,
            final(self).map@ == old(self).map@.update(
                key_index(old(self).map@, key),
                (key, *final(r)),
            ),
            final(self).map.wf(),
            final(self).subject_txt == old(self).subject_txt,
            final(self).fresh == old(self).fresh,
    {
        self.map.get_mut(key)
    }

    pub fn contains_key(&self, key: u64) -> (r: bool)
        ensures
            r == seq_contains_key(self.map@, key),
    {
        self.map.contains_key(key)
    }

    /// Inserts a new topic at the front of the order and invalidates the
    /// artifact; an existing key leaves the collection untouched and hands
    /// the topic back.
    pub fn insert(&mut self, topic: Topic) -> (r: Option<Topic>)
        requires
            old(self).wf(),
        ensures
            final(self).wf(),
            seq_contains_key(old(self).map@, topic.id) ==> r == Some(topic) && final(self).map@
                == old(self).map@ && final(self).subject_txt == old(self).subject_txt && final(self).fresh == old(self).fresh,
            !seq_contains_key(old(self).map@, topic.id) ==> r is None && final(self).map@
                == seq![(topic.id, topic)] + old(self).map@ && !final(self).fresh && final(self).subject_txt.body@.len() == 0,
    {
        let id = topic.id;
        let ret = self.map.insert(id, topic);
        if ret.is_none() {
            self.reset_txt(true);
        }
        ret
    }

    /// Removes a topic and invalidates the artifact; a missing key leaves the
    /// collection untouched.
    pub fn remove(&mut self, key: u64) -> (r: Option<Topic>)
        requires
            old(self).wf(),
        ensures
            final(self).wf(),
            r is Some <==> seq_contains_key(old(self).map@, key),
            seq_contains_key(old(self).map@, key) ==> r == Some(
                old(self).map@[key_index(old(self).map@, key)].1,
            ) && final(self).map@ == old(self).map@.remove(key_index(old(self).map@, key))
                && !final(self).fresh && final(self).subject_txt.body@.len() == 0,
            !seq_contains_key(old(self).map@, key) ==> final(self).map@ == old(self).map@ && final(self).subject_txt == old(self).subject_txt && final(self).fresh == old(self).fresh,
    {
        let ret = self.map.remove(key);
        if ret.is_some() {
            self.reset_txt(false);
        }
        ret
    }

    /// Bumps one topic's post count by one and invalidates the artifact: the
    /// re-entry by key that the write path performs after appending a line to
    /// the `.dat` file.
    pub fn increment_post_count(&mut self, key: u64)
        requires
            old(self).wf(),
            seq_contains_key(old(self).map@, key),
            old(self).map@[key_index(old(self).map@, key)].1.post_count < usize::MAX,
        ensures
            final(self).wf(),
            final(self).map@ == old(self).map@.update(
                key_index(old(self).map@, key),
                (
                    key,
                    Topic {
                        id: old(self).map@[key_index(old(self).map@, key)].1.id,
                        title: old(self).map@[key_index(old(self).map@, key)].1.title,
                        post_count: (old(self).map@[key_index(old(self).map@, key)].1.post_count
                            + 1) as usize,
                    },
                ),
            ),
            !final(self).fresh,
            final(self).subject_txt.body@.len() == 0,
    {
        let t = self.map.get_mut(key);
        let c = t.post_count_mut();
        *c = *c + 1;
        self.reset_txt(true);
    }

    /// The artifact, regenerated from the map first if a mutation left it
    /// stale. Two reads without a mutation in between return the same bytes
    /// under the same validators.
    pub fn subject_txt(&mut self) -> (r: &Cacheable<Vec<u8>>)
        requires
            old(self).wf(),
        ensures
            final(self).wf(),
            final(self).fresh,
            final(self).map == old(self).map,
            final(self).subject_txt.body@ == subject_bytes(old(self).map@),
            r == &final(self).subject_txt,
            old(self).fresh ==> *final(self) == *old(self),
    {
        if !self.fresh {
            self.make_txt();
            self.fresh = true;
        }
        &self.subject_txt
    }

    /// Replaces the artifact slot with an empty body under freshly stamped
    /// validators and marks it stale, so the next read regenerates. On an
    /// addition the new buffer gets one line's worth of headroom.
    pub fn reset_txt(&mut self, addition: bool)
        ensures
            final(self).map == old(self).map,
            !final(self).fresh,
            final(self).subject_txt.body@.len() == 0,
            final(self).subject_txt.metadata.wf(),
            final(self).subject_txt.metadata.etag@ == etag_bytes(
                SUBJECT_TXT_ID,
                final(self).subject_txt.metadata.mtime.sec,
            ),
            final(self).subject_txt.metadata.modified@ == modified_repr(
                final(self).subject_txt.metadata.mtime.sec,
            ),
            old(self).map.wf() ==> final(self).wf(),
    {
        let cap = self.subject_txt.body.len().saturating_add(
            if addition {
                STANDARD_LINE_LEN
            } else {
                0
            },
        );
        self.subject_txt = Cacheable::new(Vec::with_capacity(cap), Metadata::now(SUBJECT_TXT_ID));
        self.fresh = false;
    }

    /// Writes one line per topic, front to back, into the artifact body and
    /// re-stamps the validators.
    fn make_txt(&mut self)
        ensures
            final(self).map == old(self).map,
            final(self).fresh == old(self).fresh,
            final(self).subject_txt.body@ == subject_bytes(old(self).map@),
            final(self).subject_txt.metadata.wf(),
    {
        self.subject_txt.body.clear();
        let ghost entries = self.map@;
        let n = self.map.len();
        let mut i: usize = 0;
        proof {
            assert(subject_bytes_from(entries, 0) =~= self.subject_txt.body@
                + subject_bytes_from(entries, 0));
        }
        while i < n
            invariant
                i <= n,
                n == entries.len(),
                self.map@ == entries,
                self.map == old(self).map,
                self.fresh == old(self).fresh,
                subject_bytes_from(entries, 0) == self.subject_txt.body@ + subject_bytes_from(
                    entries,
                    i as int,
                ),
            decreases n - i,
        {
            let ghost pre = self.subject_txt.body@;
            let entry_id = self.map.iter()[i].0;
            let pc = self.map.iter()[i].1.post_count;
            push_subject_line(&mut self.subject_txt.body, entry_id, self.map.iter()[i].1.title.as_slice(), pc);
            proof {
                assert(subject_bytes_from(entries, i as int) == subject_line(
                    entries[i as int].0,
                    entries[i as int].1.title@,
                    entries[i as int].1.post_count as nat,
                ) + subject_bytes_from(entries, i + 1));
                assert(pre + (subject_line(
                    entries[i as int].0,
                    entries[i as int].1.title@,
                    entries[i as int].1.post_count as nat,
                ) + subject_bytes_from(entries, i + 1)) =~= (pre + subject_line(
                    entries[i as int].0,
                    entries[i as int].1.title@,
                    entries[i as int].1.post_count as nat,
                )) + subject_bytes_from(entries, i + 1));
            }
            i += 1;
        }
        proof {
            assert(subject_bytes_from(entries, n as int) =~= Seq::<u8>::empty());
            assert(self.subject_txt.body@ =~= subject_bytes(old(self).map@));
        }
        self.subject_txt.modify(SUBJECT_TXT_ID);
    }
}

impl TopicsBuilder {
    pub fn new() -> (r: Self)
        ensures
            r.map@ =~= Seq::<(u64, Topic)>::empty(),
            r.map.wf(),
    {
        TopicsBuilder { map: LinkedHashMap::new() }
    }

    /// Adds a topic loaded at start-up; an existing key is left as it was,
    /// as the ordered map's insert refuses duplicates.
    pub fn insert(&mut self, key: u64, topic: Topic)
        requires
            old(self).map.wf(),
        ensures
            final(self).map.wf(),
            seq_contains_key(old(self).map@, key) ==> final(self).map@ == old(self).map@,
            !seq_contains_key(old(self).map@, key) ==> final(self).map@ == seq![(key, topic)]
                + old(self).map@,
    {
        let _ = self.map.insert(key, topic);
    }

    pub fn finish(self) -> (r: Topics)
        requires
            self.map.wf(),
        ensures
            r.map@ == self.map@,
            r.wf(),
            !r.fresh,
    {
        Topics {
            map: self.map,
            subject_txt: Cacheable::new(Vec::new(), Metadata::default()),
            fresh: false,
        }
    }
}

} // verus!
