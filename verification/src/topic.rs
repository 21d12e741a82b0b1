//! One BBS thread (called a _topic_ to avoid confusion with OS threads): a
//! numeric id, a title held as raw bytes, and a post count. A topic can parse
//! itself back out of the bytes of an existing `.dat` file.

use vstd::prelude::*;
use vstd::slice::{slice_subrange, slice_to_vec};

verus! {

pub struct Topic {
    pub id: u64,
    pub title: Vec<u8>,
    pub post_count: usize,
}

/// Number of `'\n'` bytes in a byte sequence. A `.dat` file holds one post
/// per line, so this is the post count of the file.
pub open spec fn newline_count(s: Seq<u8>) -> nat
    decreases s.len(),
{
    if s.len() == 0 {
        0
    } else {
        newline_count(s.drop_last()) + if s.last() == 10 {
            1nat
        } else {
            0nat
        }
    }
}

/// Newlines in a concatenation are the newlines of the parts.
pub proof fn lemma_newline_count_concat(a: Seq<u8>, b: Seq<u8>)
    ensures
        newline_count(a + b) == newline_count(a) + newline_count(b),
    decreases b.len(),
{
    if b.len() == 0 {
        assert(a + b =~= a);
    } else {
        lemma_newline_count_concat(a, b.drop_last());
        assert((a + b).drop_last() =~= a + b.drop_last());
    }
}

/// Where the title of the first `.dat` line begins: the scan walks the bytes
/// and counts `<>` separator pairs; after the fourth pair the title starts.
/// A newline before the fourth pair (the body-first legacy variant) or the end
/// of the input means there is no title.
pub open spec fn title_start(s: Seq<u8>, i: int, seps: int) -> Option<int>
    decreases s.len() - i
        when 0 <= i <= s.len()
{
    if i >= s.len() {
        None
    } else if s[i] == 10 {
        None
    } else if s[i] == 60 && i + 1 < s.len() && s[i + 1] == 62 {
        if seps == 3 {
            Some(i + 2)
        } else {
            title_start(s, i + 2, seps + 1)
        }
    } else {
        title_start(s, i + 1, seps)
    }
}

/// Index of the first `'\n'` at or after `i`, or the length if there is none.
pub open spec fn line_end(s: Seq<u8>, i: int) -> int
    decreases s.len() - i
        when 0 <= i <= s.len()
{
    if i >= s.len() {
        s.len() as int
    } else if s[i] == 10 {
        i
    } else {
        line_end(s, i + 1)
    }
}

pub proof fn lemma_line_end(s: Seq<u8>, i: int)
    requires
        0 <= i <= s.len(),
    ensures
        i <= line_end(s, i) <= s.len(),
        line_end(s, i) < s.len() ==> s[line_end(s, i)] == 10,
        forall|k: int| i <= k < line_end(s, i) ==> s[k] != 10,
    decreases s.len() - i,
{
    if i < s.len() && s[i] != 10 {
        lemma_line_end(s, i + 1);
    }
}

/// The title a `.dat` byte stream carries: the bytes between the fourth `<>`
/// separator of the first line and the newline (or end) that follows, and
/// empty when the first line has no fourth separator.
pub open spec fn dat_title(s: Seq<u8>) -> Seq<u8> {
    match title_start(s, 0, 0) {
        Some(j) => s.subrange(j, line_end(s, j)),
        None => Seq::empty(),
    }
}

/// When the scan reports a title start it lies within the input, after at
/// least the four separator bytes.
pub proof fn lemma_title_start_bounds(s: Seq<u8>, i: int, seps: int)
    requires
        0 <= i <= s.len(),
    ensures
        title_start(s, i, seps) matches Some(j) ==> i < j <= s.len(),
    decreases s.len() - i,
{
    if i < s.len() && s[i] != 10 {
        if s[i] == 60 && i + 1 < s.len() && s[i + 1] == 62 {
            if seps != 3 {
                lemma_title_start_bounds(s, i + 2, seps + 1);
            }
        } else {
            lemma_title_start_bounds(s, i + 1, seps);
        }
    }
}


/// The separator scan passes over a stretch that holds neither `<` nor a
/// newline without changing state.
pub proof fn lemma_title_start_skip(s: Seq<u8>, i: int, j: int, seps: int)
    requires
        0 <= i <= j <= s.len(),
        forall|k: int| i <= k < j ==> s[k] != 60 && s[k] != 10,
    ensures
        title_start(s, i, seps) == title_start(s, j, seps),
    decreases j - i,
{
    if i < j {
        lemma_title_start_skip(s, i + 1, j, seps);
    }
}

/// The first newline at or after `i` is `e` when everything before `e` is
/// something else and `e` holds a newline (or is the end).
pub proof fn lemma_line_end_at(s: Seq<u8>, i: int, e: int)
    requires
        0 <= i <= e <= s.len(),
        forall|k: int| i <= k < e ==> s[k] != 10,
        e < s.len() ==> s[e] == 10,
        e == s.len() || s[e] == 10,
    ensures
        line_end(s, i) == e,
    decreases e - i,
{
    if i < e {
        lemma_line_end_at(s, i + 1, e);
    }
}


/// Loading is idempotent on unchanged bytes: two topics parsed from the same
/// `.dat` contents carry the same title and post count, so rebuilding the
/// tree over an unchanged workspace reproduces it (counts can differ only if
/// the files themselves changed).
pub proof fn lemma_load_idempotent(bytes: Seq<u8>, id: u64, a: Topic, b: Topic)
    requires
        a.id == id && a.title@ == dat_title(bytes) && a.post_count == newline_count(bytes),
        b.id == id && b.title@ == dat_title(bytes) && b.post_count == newline_count(bytes),
    ensures
        a.id == b.id,
        a.title@ == b.title@,
        a.post_count == b.post_count,
{
}

impl Topic {
    pub fn new(id: u64, title: Vec<u8>, post_count: usize) -> (r: Self)
        ensures
            r.id == id,
            r.title == title,
            r.post_count == post_count,
    {
        Topic { id, title, post_count }
    }

    /// Parses a topic out of the bytes of an existing `.dat` file: the post
    /// count is the number of newlines, and the title is what the first line
    /// carries after its fourth `<>` separator.
    pub fn load(id: u64, src: &[u8]) -> (r: Self)
        ensures
            r.id == id,
            r.title@ == dat_title(src@),
            r.post_count == newline_count(src@),
    {
        let post_count = count_newlines(src);
        let title: Vec<u8> = match find_title_start(src) {
            Some(j) => {
                proof {
                    lemma_title_start_bounds(src@, 0, 0);
                    lemma_line_end(src@, j as int);
                }
                let e = find_line_end(src, j);
                slice_to_vec(slice_subrange(src, j, e))
            },
            None => Vec::new(),
        };
        proof {
            assert(title@ =~= dat_title(src@));
        }
        Topic { id, title, post_count }
    }

    pub fn id(&self) -> (r: u64)
        ensures
            r == self.id,
    {
        self.id
    }

    pub fn title(&self) -> (r: &Vec<u8>)
        ensures
            r == &self.title,
    {
        &self.title
    }

    pub fn post_count(&self) -> (r: usize)
        ensures
            r == self.post_count,
    {
        self.post_count
    }

    pub fn post_count_mut(&mut self) -> (r: &mut usize)
        ensures
            *r == old(self).post_count,
            final(self).id == old(self).id,
            final(self).title == old(self).title,
            final(self).post_count == *final(r),
    {
        &mut self.post_count
    }
}

/// Relies on `memchr::memchr`: the index of the first occurrence of `needle`
/// in `haystack`, or `None` when the byte does not occur.
pub assume_specification[ memchr::memchr ](needle: u8, haystack: &[u8]) -> (r: Option<usize>)
    ensures
        match r {
            Some(i) => i < haystack@.len() && haystack@[i as int] == needle && (forall|j: int|
                0 <= j < i ==> haystack@[j] != needle),
            None => forall|j: int| 0 <= j < haystack@.len() ==> haystack@[j] != needle,
        },
;

/// Counts the `'\n'` bytes of a slice.
fn count_newlines(s: &[u8]) -> (r: usize)
    ensures
        r == newline_count(s@),
{
    let mut count: usize = 0;
    let mut i: usize = 0;
    while i < s.len()
        invariant
            i <= s.len(),
            count <= i,
            count == newline_count(s@.subrange(0, i as int)),
        decreases s.len() - i,
    {
        proof {
            assert(s@.subrange(0, i + 1).drop_last() =~= s@.subrange(0, i as int));
        }
        if s[i] == 10 {
            count += 1;
        }
        i += 1;
    }
    proof {
        assert(s@.subrange(0, s@.len() as int) =~= s@);
    }
    count
}

/// Walks the first line of a `.dat`, counting `<>` separators, and reports
/// where the title begins, as `title_start` describes.
fn find_title_start(s: &[u8]) -> (r: Option<usize>)
    ensures
        match r {
            Some(j) => title_start(s@, 0, 0) == Some(j as int),
            None => title_start(s@, 0, 0) is None,
        },
{
    let mut i: usize = 0;
    let mut seps: u8 = 0;
    while i < s.len()
        invariant
            i <= s.len(),
            seps <= 3,
            title_start(s@, 0, 0) == title_start(s@, i as int, seps as int),
        decreases s.len() - i,
    {
        let c = s[i];
        if c == 10 {
            return None;
        }
        if c == 60 && i + 1 < s.len() && s[i + 1] == 62 {
            if seps == 3 {
                return Some(i + 2);
            }
            seps += 1;
            i += 2;
        } else {
            i += 1;
        }
    }
    None
}

/// The first `'\n'` at or after `from`, or the slice length. Searches through
/// `memchr`.
fn find_line_end(s: &[u8], from: usize) -> (r: usize)
    requires
        from <= s@.len(),
    ensures
        r == line_end(s@, from as int),
{
    proof {
        lemma_line_end(s@, from as int);
    }
    let tail = slice_subrange(s, from, s.len());
    match memchr::memchr(10, tail) {
        Some(k) => {
            proof {
                assert(s@[from + k] == 10);
                assert forall|j: int| from <= j < from + k implies s@[j] != 10 by {
                    assert(tail@[j - from] != 10);
                }
                assert(line_end(s@, from as int) == from + k);
            }
            from + k
        },
        None => {
            proof {
                assert forall|j: int| from <= j < s@.len() implies s@[j] != 10 by {
                    assert(tail@[j - from] != 10);
                }
            }
            s.len()
        },
    }
}

} // verus!
