//! The process-wide root: the set of boards keyed by case-insensitive id, the
//! middleware registry, and the workspace path the `.dat` files live under.
//! The write path of `bbs.cgi` lives here as two calls: `prepare_post`
//! resolves the board and thread, runs the pipeline and serializes the line;
//! after the caller has appended that line to the `.dat` file and flushed it,
//! `commit_post` bumps the post count and invalidates the board's
//! `subject.txt`.

use vstd::prelude::*;
use vstd::slice::slice_to_vec;

use crate::board::Board;
use crate::bytes::push_bytes;
use crate::datetime::MAX_CALENDAR_SEC;
use crate::decimal::{dec_digits, push_u64_dec};
use crate::linked_hash_map::{key_index, seq_contains_key};
use crate::middleware::{spec_apply_datetime, Middleware, Middlewares, Request, mw_wf};
use crate::post::{dat_line_bytes, Post};
use crate::topic::Topic;
use crate::validator::{AlphaNum, Digits, Escaped};

verus! {

pub struct Bbs {
    pub boards: Vec<Board>,
    pub middlewares: Middlewares,
    pub workspace: Vec<u8>,
}

/// The form fields of one `bbs.cgi` request, already validated.
#[allow(non_snake_case)]
pub struct BbsForm {
    pub bbs: AlphaNum,
    pub key: Option<Digits>,
    pub subject: Option<Escaped>,
    pub FROM: Escaped,
    pub mail: Escaped,
    pub MESSAGE: Escaped,
}

/// What `prepare_post` hands back for the caller to perform the one piece of
/// I/O: append `line` to the `.dat` file of topic `key`, flush, and then
/// commit.
#[derive(Debug)]
pub struct PreparedPost {
    pub board_index: usize,
    pub key: u64,
    pub key_raw: Vec<u8>,
    pub line: Vec<u8>,
    pub created: bool,
}

/// ASCII upper case folded to lower case; other bytes unchanged.
pub open spec fn fold_byte(c: u8) -> u8 {
    if 65 <= c <= 90 {
        (c + 32) as u8
    } else {
        c
    }
}

/// A board id folded for case-insensitive comparison.
pub open spec fn fold_id(s: Seq<u8>) -> Seq<u8> {
    s.map_values(|c: u8| fold_byte(c))
}

/// The board's id equals the name up to ASCII case.
pub open spec fn board_matches(b: Board, name: Seq<u8>) -> bool {
    fold_id(b.id@) == fold_id(name)
}

pub open spec fn has_board(boards: Seq<Board>, name: Seq<u8>) -> bool {
    exists|i: int| 0 <= i < boards.len() && board_matches(boards[i], name)
}

pub open spec fn board_at(boards: Seq<Board>, name: Seq<u8>) -> int {
    choose|i: int| 0 <= i < boards.len() && board_matches(boards[i], name)
}

/// Case-insensitive equality of two names.
fn fold_eq(a: &[u8], b: &[u8]) -> (r: bool)
    ensures
        r == (fold_id(a@) == fold_id(b@)),
{
    if a.len() != b.len() {
        proof {
            assert(fold_id(a@).len() != fold_id(b@).len());
        }
        return false;
    }
    let mut i: usize = 0;
    while i < a.len()
        invariant
            i <= a@.len(),
            a@.len() == b@.len(),
            forall|j: int| 0 <= j < i ==> fold_id(a@)[j] == fold_id(b@)[j],
        decreases a@.len() - i,
    {
        let ca = a[i];
        let cb = b[i];
        let fa = if 65 <= ca && ca <= 90 {
            ca + 32
        } else {
            ca
        };
        let fb = if 65 <= cb && cb <= 90 {
            cb + 32
        } else {
            cb
        };
        proof {
            assert(fold_id(a@)[i as int] == fold_byte(a@[i as int]));
            assert(fold_id(b@)[i as int] == fold_byte(b@[i as int]));
        }
        if fa != fb {
            return false;
        }
        i += 1;
    }
    proof {
        assert(fold_id(a@) =~= fold_id(b@));
    }
    true
}

/// The boards kept when a crawl hands in a list that may repeat a name up to
/// case: the first board under each folded id survives, as insertion into a
/// set keyed by the uncased id would have it.
pub open spec fn dedup_boards_from(s: Seq<Board>, i: int) -> Seq<Board>
    decreases s.len() - i
        when 0 <= i <= s.len()
{
    if i >= s.len() {
        Seq::empty()
    } else if forall|j: int| 0 <= j < i ==> fold_id(#[trigger] s[j].id@) != fold_id(s[i].id@) {
        seq![s[i]] + dedup_boards_from(s, i + 1)
    } else {
        dedup_boards_from(s, i + 1)
    }
}

/// Whether some board of the list carries the folded id.
fn contains_fold(v: &Vec<Board>, id: &[u8]) -> (r: bool)
    ensures
        r == exists|l: int|
            0 <= l < v@.len() && fold_id(#[trigger] v@[l].id@) == fold_id(id@),
{
    let mut k: usize = 0;
    while k < v.len()
        invariant
            k <= v@.len(),
            forall|l: int| 0 <= l < k ==> fold_id(#[trigger] v@[l].id@) != fold_id(id@),
        decreases v@.len() - k,
    {
        if fold_eq(v[k].id.as_slice(), id) {
            return true;
        }
        k += 1;
    }
    false
}

impl Bbs {
    /// The root invariant: every board is well formed, no two boards share a
    /// folded id, and the registered middlewares are well formed.
    pub open spec fn wf(&self) -> bool {
        &&& forall|i: int| 0 <= i < self.boards@.len() ==> (#[trigger] self.boards@[i]).wf()
        &&& forall|i: int, j: int|
            0 <= i < j < self.boards@.len() ==> fold_id(self.boards@[i].id@) != fold_id(
                self.boards@[j].id@,
            )
        &&& self.middlewares.wf()
    }

    /// Assembles the root from the boards a workspace crawl produced; when
    /// two directories collide up to case, the first one crawled wins.
    #[verifier::rlimit(100)]
    pub fn from_boards(workspace: Vec<u8>, boards: Vec<Board>) -> (r: Self)
        requires
            forall|i: int| 0 <= i < boards@.len() ==> (#[trigger] boards@[i]).wf(),
        ensures
            r.boards@ == dedup_boards_from(boards@, 0),
            r.workspace == workspace,
            r.middlewares.before@ =~= Seq::<Middleware>::empty(),
            r.middlewares.after@ =~= Seq::<Middleware>::empty(),
            r.wf(),
    {
        let ghost all = boards@;
        let mut src = boards;
        let mut kept: Vec<Board> = Vec::new();
        proof {
            assert(src@ =~= all.subrange(all.len() - src@.len(), all.len() as int));
            assert(dedup_boards_from(all, 0) =~= kept@ + dedup_boards_from(all, 0));
        }
        while src.len() > 0
            invariant
                src@.len() <= all.len(),
                src@ == all.subrange(all.len() - src@.len(), all.len() as int),
                forall|k: int| 0 <= k < all.len() ==> (#[trigger] all[k]).wf(),
                forall|k: int| 0 <= k < kept@.len() ==> (#[trigger] kept@[k]).wf(),
                forall|k: int, l: int|
                    0 <= k < l < kept@.len() ==> fold_id(kept@[k].id@) != fold_id(kept@[l].id@),
                forall|j: int|
                    #![trigger all[j]]
                    0 <= j < all.len() - src@.len() ==> exists|k: int|
                        0 <= k < kept@.len() && fold_id(#[trigger] kept@[k].id@) == fold_id(
                            all[j].id@,
                        ),
                forall|k: int|
                    #![trigger kept@[k]]
                    0 <= k < kept@.len() ==> exists|j: int|
                        #![trigger all[j]]
                        0 <= j < all.len() - src@.len() && fold_id(kept@[k].id@) == fold_id(
                            all[j].id@,
                        ),
                dedup_boards_from(all, 0) == kept@ + dedup_boards_from(
                    all,
                    all.len() - src@.len(),
                ),
            decreases src@.len(),
        {
            let ghost i = all.len() - src@.len();
            let ghost pre = kept@;
            let b = src.remove(0);
            proof {
                assert(b == all[i]);
                assert(src@ =~= all.subrange(all.len() - src@.len(), all.len() as int));
            }
            let found = contains_fold(&kept, b.id.as_slice());
            if !found {
                proof {
                    assert forall|j: int| 0 <= j < i implies fold_id(#[trigger] all[j].id@)
                        != fold_id(all[i].id@) by {
                        if fold_id(all[j].id@) == fold_id(all[i].id@) {
                            let k = choose|k: int|
                                0 <= k < pre.len() && fold_id(#[trigger] pre[k].id@) == fold_id(
                                    all[j].id@,
                                );
                            assert(fold_id(pre[k].id@) == fold_id(b.id@));
                        }
                    }
                    assert(dedup_boards_from(all, i) == seq![all[i]] + dedup_boards_from(
                        all,
                        i + 1,
                    ));
                    assert(pre + (seq![all[i]] + dedup_boards_from(all, i + 1)) =~= (pre + seq![
                        all[i],
                    ]) + dedup_boards_from(all, i + 1));
                }
                kept.push(b);
                proof {
                    assert(kept@ =~= pre + seq![all[i]]);
                    assert forall|j: int| #![trigger all[j]] 0 <= j < i + 1 implies exists|k: int|
                        0 <= k < kept@.len() && fold_id(#[trigger] kept@[k].id@) == fold_id(
                            all[j].id@,
                        ) by {
                        if j < i {
                            let k = choose|k: int|
                                0 <= k < pre.len() && fold_id(#[trigger] pre[k].id@) == fold_id(
                                    all[j].id@,
                                );
                            assert(kept@[k] == pre[k]);
                            assert(fold_id(kept@[k].id@) == fold_id(all[j].id@));
                        } else {
                            assert(kept@[kept@.len() - 1] == all[i]);
                            assert(fold_id(kept@[kept@.len() - 1].id@) == fold_id(all[j].id@));
                        }
                    }
                }
            } else {
                proof {
                    let l = choose|l: int|
                        0 <= l < kept@.len() && fold_id(#[trigger] kept@[l].id@) == fold_id(
                            b.id@,
                        );
                    assert(kept@[l] == pre[l]);
                    let j = choose|j: int|
                        #![trigger all[j]]
                        0 <= j < i && fold_id(kept@[l].id@) == fold_id(all[j].id@);
                    assert(fold_id(all[j].id@) == fold_id(all[i].id@));
                    assert(!(forall|j2: int|
                        0 <= j2 < i ==> fold_id(#[trigger] all[j2].id@) != fold_id(all[i].id@)));
                    assert(dedup_boards_from(all, i) == dedup_boards_from(all, i + 1));
                }
            }
        }
        proof {
            assert(dedup_boards_from(all, all.len() as int) =~= Seq::<Board>::empty());
            assert(kept@ =~= dedup_boards_from(all, 0));
        }
        Bbs { boards: kept, middlewares: Middlewares::new(), workspace }
    }

    /// Registers a middleware for both phases.
    pub fn attach(&mut self, m: Middleware)
        requires
            old(self).wf(),
            mw_wf(m),
        ensures
            final(self).middlewares.before@ == old(self).middlewares.before@.push(m),
            final(self).middlewares.after@ == old(self).middlewares.after@.push(m),
            final(self).boards == old(self).boards,
            final(self).workspace == old(self).workspace,
            final(self).wf(),
    {
        self.middlewares.attach(m);
    }

    /// Registers a middleware for the `before` phase alone.
    pub fn attach_before(&mut self, m: Middleware)
        requires
            old(self).wf(),
            mw_wf(m),
        ensures
            final(self).middlewares.before@ == old(self).middlewares.before@.push(m),
            final(self).middlewares.after@ == old(self).middlewares.after@,
            final(self).boards == old(self).boards,
            final(self).workspace == old(self).workspace,
            final(self).wf(),
    {
        self.middlewares.attach_before(m);
    }

    /// Registers a middleware for the `after` phase alone.
    pub fn attach_after(&mut self, m: Middleware)
        requires
            old(self).wf(),
            mw_wf(m),
        ensures
            final(self).middlewares.before@ == old(self).middlewares.before@,
            final(self).middlewares.after@ == old(self).middlewares.after@.push(m),
            final(self).boards == old(self).boards,
            final(self).workspace == old(self).workspace,
            final(self).wf(),
    {
        self.middlewares.attach_after(m);
    }

    pub fn before_middlewares(&self) -> (r: &Vec<Middleware>)
        ensures
            r == &self.middlewares.before,
    {
        self.middlewares.before()
    }

    pub fn after_middlewares(&self) -> (r: &Vec<Middleware>)
        ensures
            r == &self.middlewares.after,
    {
        self.middlewares.after()
    }

    /// Runs the registered pipeline over a post at a given instant.
    pub fn apply_middlewares(
        &self,
        post: &mut Post,
        req: &Request,
        settings: &crate::settings::Settings,
        now_sec: i64,
        now_ns: u32,
    ) -> (r: Result<(), Vec<u8>>)
        requires
            self.wf(),
            86400 <= now_sec <= MAX_CALENDAR_SEC - 86400,
            now_ns < 2_000_000_000,
        ensures
            r is Ok,
            final(post).name == old(post).name,
            final(post).mail == old(post).mail,
            final(post).body == old(post).body,
            final(post).title == old(post).title,
            final(post).datetime@ == spec_apply_datetime(
                &self.middlewares,
                old(post).datetime@,
                req.remote,
                settings,
                now_sec,
                now_ns,
            ),
    {
        self.middlewares.apply_at(post, req, settings, now_sec, now_ns)
    }

    /// The index of the board whose id equals the name up to ASCII case.
    pub fn board_index(&self, name: &[u8]) -> (r: Option<usize>)
        requires
            self.wf(),
        ensures
            r is Some <==> has_board(self.boards@, name@),
            r matches Some(i) ==> i < self.boards@.len() && i == board_at(self.boards@, name@)
                && board_matches(self.boards@[i as int], name@),
    {
        let mut i: usize = 0;
        while i < self.boards.len()
            invariant
                i <= self.boards@.len(),
                self.wf(),
                forall|j: int| 0 <= j < i ==> !board_matches(#[trigger] self.boards@[j], name@),
            decreases self.boards@.len() - i,
        {
            if fold_eq(self.boards[i].id.as_slice(), name) {
                proof {
                    assert(board_matches(self.boards@[i as int], name@));
                    let w = board_at(self.boards@, name@);
                    if w < i {
                        assert(!board_matches(self.boards@[w], name@));
                    }
                    if w > i {
                        assert(fold_id(self.boards@[i as int].id@) != fold_id(
                            self.boards@[w].id@,
                        ));
                    }
                }
                return Some(i);
            }
            i += 1;
        }
        None
    }

    /// Resolves the board and thread of one write request, runs the
    /// registered pipeline over the post, and serializes the `.dat` line.
    /// The thread-creating branch inserts the blank topic here, so the key is
    /// reserved before the file exists. The caller appends the line to the
    /// topic's `.dat` file, flushes it, and only then calls `commit_post`, so
    /// the visible post count never runs ahead of the bytes on disk.
    pub fn prepare_post(
        &mut self,
        form: BbsForm,
        remote: Option<Vec<u8>>,
        now_sec: i64,
        now_ns: u32,
    ) -> (r: Result<PreparedPost, Vec<u8>>)
        requires
            old(self).wf(),
            86400 <= now_sec <= MAX_CALENDAR_SEC - 86400,
            now_ns < 2_000_000_000,
            forall|i: int|
                0 <= i < old(self).boards@.len() ==> (#[trigger] old(
                    self,
                ).boards@[i]).topics.map@.len() < 0x1000000000000000,
        ensures
            final(self).wf(),
            final(self).workspace == old(self).workspace,
            final(self).middlewares == old(self).middlewares,
            final(self).boards@.len() == old(self).boards@.len(),
            r is Ok <==> has_board(old(self).boards@, form.bbs.value@) && (match form.key {
                Some(d) => seq_contains_key(
                    old(self).boards@[board_at(old(self).boards@, form.bbs.value@)].topics.map@,
                    d.number,
                ),
                None => form.subject is Some,
            }),
            r matches Err(e) ==> final(self).boards == old(self).boards && ((e@
                == board_not_found_bytes() && !has_board(old(self).boards@, form.bbs.value@)) || (
            e@ == thread_not_found_bytes() && has_board(old(self).boards@, form.bbs.value@)
                && form.key is Some) || (e@ == missing_param_bytes() && has_board(
                old(self).boards@,
                form.bbs.value@,
            ) && form.key is None && form.subject is None)),
            r matches Ok(p) ==> {
                let idx = board_at(old(self).boards@, form.bbs.value@);
                let brd = old(self).boards@[idx];
                &&& p.board_index == idx
                &&& idx < old(self).boards@.len()
                &&& p.line@ == dat_line_bytes(
                    spec_escaped_value(form.FROM),
                    spec_escaped_value(form.mail),
                    spec_apply_datetime(
                        &old(self).middlewares,
                        Seq::<u8>::empty(),
                        remote,
                        &brd.settings,
                        now_sec,
                        now_ns,
                    ),
                    spec_escaped_value(form.MESSAGE),
                    if p.created {
                        match form.subject {
                            Some(t) => Some(t.value@),
                            None => None,
                        }
                    } else {
                        None
                    },
                )
                &&& (match form.key {
                    Some(d) => !p.created && p.key == d.number && p.key_raw@ == d.raw@
                        && seq_contains_key(brd.topics.map@, d.number) && final(self).boards
                        == old(self).boards,
                    None => {
                        &&& p.created
                        &&& form.subject is Some
                        &&& p.key_raw@ == dec_digits(p.key as nat)
                        &&& !seq_contains_key(brd.topics.map@, p.key)
                        &&& (forall|j: int|
                            0 <= j < old(self).boards@.len() && j != idx ==> final(self).boards@[j]
                                == old(self).boards@[j])
                        &&& final(self).boards@[idx].id == brd.id
                        &&& final(self).boards@[idx].settings == brd.settings
                        &&& final(self).boards@[idx].topics.map@.len() == brd.topics.map@.len() + 1
                        &&& final(self).boards@[idx].topics.map@.subrange(
                            1,
                            final(self).boards@[idx].topics.map@.len() as int,
                        ) == brd.topics.map@
                        &&& final(self).boards@[idx].topics.map@[0].0 == p.key
                        &&& final(self).boards@[idx].topics.map@[0].1.id == p.key
                        &&& final(self).boards@[idx].topics.map@[0].1.title@ == (match form.subject {
                            Some(t) => t.value@,
                            None => Seq::<u8>::empty(),
                        })
                        &&& final(self).boards@[idx].topics.map@[0].1.post_count == 0
                        &&& !final(self).boards@[idx].topics.fresh
                    },
                })
            },
    {
        let idx = match self.board_index(form.bbs.as_str().as_slice()) {
            Some(i) => i,
            None => {
                return Err(board_not_found());
            },
        };
        let (key_digits, created, title_opt): (Digits, bool, Option<Vec<u8>>) = match form.key {
            Some(d) => {
                if !self.boards[idx].topics.contains_key(d.number) {
                    return Err(thread_not_found());
                }
                (d, false, None)
            },
            None => match form.subject {
                Some(t) => {
                    let title = crate::bytes::clone_bytes(&t.value);
                    let b = &mut self.boards[idx];
                    let k = b.create_topic_at(title, now_sec as u64);
                    proof {
                        crate::decimal::lemma_dec_digits_value(k as nat);
                    }
                    (Digits::from_number(k), true, Some(t.value))
                },
                None => {
                    return Err(missing_param());
                },
            },
        };
        let key_num = key_digits.number;
        let key_raw = crate::bytes::clone_bytes(&key_digits.raw);
        let mut post = Post::new(form.FROM.value, form.mail.value, form.MESSAGE.value, title_opt);
        let req = Request::new(form.bbs, key_digits, remote, None);
        let settings = &self.boards[idx].settings;
        let res = self.middlewares.apply_at(&mut post, &req, settings, now_sec, now_ns);
        match res {
            Ok(()) => {},
            Err(e) => {
                return Err(e);
            },
        }
        let line = post.dat_line();
        proof {
            if created {
                assert(self.boards@[idx as int].topics.map@.subrange(
                    1,
                    self.boards@[idx as int].topics.map@.len() as int,
                ) =~= old(self).boards@[idx as int].topics.map@);
            }
        }
        Ok(PreparedPost { board_index: idx, key: key_num, key_raw, line, created })
    }

    /// Bumps the post count of the topic whose `.dat` line has just been
    /// appended and flushed, and invalidates the board's `subject.txt`. A
    /// reader may briefly see the file ahead of the count, never the count
    /// ahead of the file.
    pub fn commit_post(&mut self, board_index: usize, key: u64)
        requires
            old(self).wf(),
            board_index < old(self).boards@.len(),
            seq_contains_key(old(self).boards@[board_index as int].topics.map@, key),
            old(self).boards@[board_index as int].topics.map@[key_index(
                old(self).boards@[board_index as int].topics.map@,
                key,
            )].1.post_count < usize::MAX,
        ensures
            final(self).wf(),
            final(self).workspace == old(self).workspace,
            final(self).middlewares == old(self).middlewares,
            final(self).boards@.len() == old(self).boards@.len(),
            forall|j: int|
                0 <= j < old(self).boards@.len() && j != board_index ==> final(self).boards@[j]
                    == old(self).boards@[j],
            final(self).boards@[board_index as int].id == old(
                self,
            ).boards@[board_index as int].id,
            final(self).boards@[board_index as int].settings == old(
                self,
            ).boards@[board_index as int].settings,
            final(self).boards@[board_index as int].topics.map@ == old(
                self,
            ).boards@[board_index as int].topics.map@.update(
                key_index(old(self).boards@[board_index as int].topics.map@, key),
                (
                    key,
                    Topic {
                        id: old(self).boards@[board_index as int].topics.map@[key_index(
                            old(self).boards@[board_index as int].topics.map@,
                            key,
                        )].1.id,
                        title: old(self).boards@[board_index as int].topics.map@[key_index(
                            old(self).boards@[board_index as int].topics.map@,
                            key,
                        )].1.title,
                        post_count: (old(self).boards@[board_index as int].topics.map@[key_index(
                            old(self).boards@[board_index as int].topics.map@,
                            key,
                        )].1.post_count + 1) as usize,
                    },
                ),
            ),
            !final(self).boards@[board_index as int].topics.fresh,
    {
        let b = &mut self.boards[board_index];
        b.increment_post_count(key);
        proof {
            assert forall|i2: int, j2: int|
                0 <= i2 < j2 < self.boards@.len() implies fold_id(self.boards@[i2].id@)
                != fold_id(self.boards@[j2].id@) by {
                assert(self.boards@[i2].id == old(self).boards@[i2].id);
                assert(self.boards@[j2].id == old(self).boards@[j2].id);
            }
        }
    }

    /// The board under a case-insensitive name.
    pub fn board(&self, name: &[u8]) -> (r: Option<&Board>)
        requires
            self.wf(),
        ensures
            r is Some <==> has_board(self.boards@, name@),
            r matches Some(b) ==> *b == self.boards@[board_at(self.boards@, name@)],
    {
        match self.board_index(name) {
            Some(i) => Some(&self.boards[i]),
            None => None,
        }
    }
}

/// The bytes an escaped form value carries.
pub open spec fn spec_escaped_value(e: Escaped) -> Seq<u8> {
    e.value@
}

/// The error bytes `Board not found`.
pub open spec fn board_not_found_bytes() -> Seq<u8> {
    seq![
        66u8, 111u8, 97u8, 114u8, 100u8, 32u8, 110u8, 111u8, 116u8, 32u8, 102u8, 111u8, 117u8,
        110u8, 100u8,
    ]
}

/// The error bytes `Thread not found`.
pub open spec fn thread_not_found_bytes() -> Seq<u8> {
    seq![
        84u8, 104u8, 114u8, 101u8, 97u8, 100u8, 32u8, 110u8, 111u8, 116u8, 32u8, 102u8, 111u8,
        117u8, 110u8, 100u8,
    ]
}

/// The error bytes `` Either `key` or `subject` parameter is required ``.
pub open spec fn missing_param_bytes() -> Seq<u8> {
    seq![
        69u8, 105u8, 116u8, 104u8, 101u8, 114u8, 32u8, 96u8, 107u8, 101u8, 121u8, 96u8, 32u8,
        111u8, 114u8, 32u8, 96u8, 115u8, 117u8, 98u8, 106u8, 101u8, 99u8, 116u8, 96u8, 32u8,
        112u8, 97u8, 114u8, 97u8, 109u8, 101u8, 116u8, 101u8, 114u8, 32u8, 105u8, 115u8, 32u8,
        114u8, 101u8, 113u8, 117u8, 105u8, 114u8, 101u8, 100u8,
    ]
}

pub fn board_not_found() -> (r: Vec<u8>)
    ensures
        r@ == board_not_found_bytes(),
{
    let a: [u8; 15] = [66, 111, 97, 114, 100, 32, 110, 111, 116, 32, 102, 111, 117, 110, 100];
    proof {
        assert(a@ =~= board_not_found_bytes());
    }
    slice_to_vec(a.as_slice())
}

pub fn thread_not_found() -> (r: Vec<u8>)
    ensures
        r@ == thread_not_found_bytes(),
{
    let a: [u8; 16] = [84, 104, 114, 101, 97, 100, 32, 110, 111, 116, 32, 102, 111, 117, 110, 100];
    proof {
        assert(a@ =~= thread_not_found_bytes());
    }
    slice_to_vec(a.as_slice())
}

pub fn missing_param() -> (r: Vec<u8>)
    ensures
        r@ == missing_param_bytes(),
{
    let a: [u8; 47] = [
        69, 105, 116, 104, 101, 114, 32, 96, 107, 101, 121, 96, 32, 111, 114, 32, 96, 115, 117,
        98, 106, 101, 99, 116, 96, 32, 112, 97, 114, 97, 109, 101, 116, 101, 114, 32, 105, 115,
        32, 114, 101, 113, 117, 105, 114, 101, 100,
    ];
    proof {
        assert(a@ =~= missing_param_bytes());
    }
    slice_to_vec(a.as_slice())
}

/// The Shift_JIS bytes the write endpoint answers with on success.
pub open spec fn success_bytes() -> Seq<u8> {
    seq![
        0x8Fu8, 0x91u8, 0x82u8, 0xABu8, 0x8Du8, 0x9Eu8, 0x82u8, 0xDDu8, 0x82u8, 0xDCu8, 0x82u8,
        0xB5u8, 0x82u8, 0xBDu8, 0x81u8, 0x42u8,
    ]
}

pub fn success_body() -> (r: Vec<u8>)
    ensures
        r@ == success_bytes(),
{
    let a: [u8; 16] = [
        0x8F, 0x91, 0x82, 0xAB, 0x8D, 0x9E, 0x82, 0xDD, 0x82, 0xDC, 0x82, 0xB5, 0x82, 0xBD, 0x81,
        0x42,
    ];
    proof {
        assert(a@ =~= success_bytes());
    }
    slice_to_vec(a.as_slice())
}

/// The path of one topic's `.dat` file:
/// `{workspace}/{board}/dat/{key}.dat`.
pub open spec fn dat_path_bytes(workspace: Seq<u8>, board: Seq<u8>, key: nat) -> Seq<u8> {
    workspace + seq![47u8] + board + seq![47u8, 100u8, 97u8, 116u8, 47u8] + dec_digits(key)
        + seq![46u8, 100u8, 97u8, 116u8]
}

pub fn dat_path(workspace: &[u8], board: &[u8], key: u64) -> (r: Vec<u8>)
    ensures
        r@ == dat_path_bytes(workspace@, board@, key as nat),
{
    let mut out: Vec<u8> = Vec::new();
    push_bytes(&mut out, workspace);
    let ghost s1 = out@;
    out.push(47);
    proof {
        assert(out@ =~= s1 + seq![47u8]);
    }
    push_bytes(&mut out, board);
    let ghost s2 = out@;
    out.push(47);
    out.push(100);
    out.push(97);
    out.push(116);
    out.push(47);
    proof {
        assert(out@ =~= s2 + seq![47u8, 100u8, 97u8, 116u8, 47u8]);
    }
    push_u64_dec(&mut out, key);
    let ghost s3 = out@;
    out.push(46);
    out.push(100);
    out.push(97);
    out.push(116);
    proof {
        assert(out@ =~= s3 + seq![46u8, 100u8, 97u8, 116u8]);
        assert(out@ =~= dat_path_bytes(workspace@, board@, key as nat));
    }
    out
}

/// The `Location` of a fresh post: `read.cgi/{board}/{key}/`.
pub open spec fn post_location_bytes(board: Seq<u8>, key_raw: Seq<u8>) -> Seq<u8> {
    seq![114u8, 101u8, 97u8, 100u8, 46u8, 99u8, 103u8, 105u8, 47u8] + board + seq![47u8] + key_raw
        + seq![47u8]
}

pub fn post_location(board: &[u8], key_raw: &[u8]) -> (r: Vec<u8>)
    ensures
        r@ == post_location_bytes(board@, key_raw@),
{
    let mut out: Vec<u8> = Vec::new();
    out.push(114);
    out.push(101);
    out.push(97);
    out.push(100);
    out.push(46);
    out.push(99);
    out.push(103);
    out.push(105);
    out.push(47);
    proof {
        assert(out@ =~= seq![114u8, 101u8, 97u8, 100u8, 46u8, 99u8, 103u8, 105u8, 47u8]);
    }
    push_bytes(&mut out, board);
    let ghost s1 = out@;
    out.push(47);
    proof {
        assert(out@ =~= s1 + seq![47u8]);
    }
    push_bytes(&mut out, key_raw);
    let ghost s2 = out@;
    out.push(47);
    proof {
        assert(out@ =~= s2 + seq![47u8]);
        assert(out@ =~= post_location_bytes(board@, key_raw@));
    }
    out
}

} // verus!
