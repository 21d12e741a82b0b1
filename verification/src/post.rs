//! The mutable carrier of one post while the middleware pipeline decorates
//! it, and the serialization of a finished post into one `.dat` line.

use vstd::prelude::*;

use crate::bytes::push_bytes;
use crate::topic::{
    dat_title, lemma_line_end_at, lemma_newline_count_concat, lemma_title_start_skip,
    newline_count, title_start,
};

verus! {

pub struct Post {
    pub name: Vec<u8>,
    pub mail: Vec<u8>,
    pub datetime: Vec<u8>,
    pub body: Vec<u8>,
    pub title: Option<Vec<u8>>,
}

/// The bytes `"<>"`, the field separator of the wire format.
pub open spec fn field_sep() -> Seq<u8> {
    seq![60u8, 62u8]
}

/// One `.dat` line: `name<>mail<>datetime<> body <>\n`, with the title before
/// the newline when the post carries one (the thread-creating post does).
/// The single spaces around the body are wire-exact.
pub open spec fn dat_line_bytes(
    name: Seq<u8>,
    mail: Seq<u8>,
    datetime: Seq<u8>,
    body: Seq<u8>,
    title: Option<Seq<u8>>,
) -> Seq<u8> {
    name + field_sep() + mail + field_sep() + datetime + field_sep() + seq![32u8] + body
        + seq![32u8] + field_sep() + (match title {
        Some(t) => t,
        None => Seq::<u8>::empty(),
    }) + seq![10u8]
}

/// The view of an optional byte buffer.
pub open spec fn opt_view(o: Option<Vec<u8>>) -> Option<Seq<u8>> {
    match o {
        Some(v) => Some(v@),
        None => None,
    }
}


/// A byte string without a newline holds no line.
pub proof fn lemma_no_newline_zero(s: Seq<u8>)
    requires
        forall|i: int| 0 <= i < s.len() ==> s[i] != 10,
    ensures
        newline_count(s) == 0,
    decreases s.len(),
{
    if s.len() > 0 {
        lemma_no_newline_zero(s.drop_last());
    }
}

/// One serialized post line holds exactly one newline, the one that ends it,
/// as long as none of the fields smuggles one in.
pub proof fn lemma_dat_line_single_newline(
    name: Seq<u8>,
    mail: Seq<u8>,
    datetime: Seq<u8>,
    body: Seq<u8>,
    title: Option<Seq<u8>>,
)
    requires
        forall|i: int| 0 <= i < name.len() ==> name[i] != 10,
        forall|i: int| 0 <= i < mail.len() ==> mail[i] != 10,
        forall|i: int| 0 <= i < datetime.len() ==> datetime[i] != 10,
        forall|i: int| 0 <= i < body.len() ==> body[i] != 10,
        title matches Some(t) ==> forall|i: int| 0 <= i < t.len() ==> t[i] != 10,
    ensures
        newline_count(
            dat_line_bytes(name, mail, datetime, body, title),
        ) == 1,
{
    let t = match title {
        Some(t) => t,
        None => Seq::<u8>::empty(),
    };
    let pre = name + field_sep() + mail + field_sep() + datetime + field_sep() + seq![32u8] + body
        + seq![32u8] + field_sep() + t;
    assert forall|i: int| 0 <= i < pre.len() implies pre[i] != 10 by {}
    lemma_no_newline_zero(pre);
    lemma_newline_count_concat(pre, seq![10u8]);
    assert(newline_count(seq![10u8]) == 1) by {
        assert(seq![10u8].drop_last() =~= Seq::<u8>::empty());
        assert(newline_count(Seq::<u8>::empty()) == 0);
        assert(seq![10u8].last() == 10u8);
    }
    assert(dat_line_bytes(name, mail, datetime, body, title) == pre + seq![10u8]);
}

/// Every accepted write adds exactly one to the newline count of the topic's
/// `.dat` file, which is what keeps `post_count` equal to the number of lines
/// on disk after quiescence.
pub proof fn lemma_post_count_tracks_file(
    file: Seq<u8>,
    name: Seq<u8>,
    mail: Seq<u8>,
    datetime: Seq<u8>,
    body: Seq<u8>,
    title: Option<Seq<u8>>,
)
    requires
        forall|i: int| 0 <= i < name.len() ==> name[i] != 10,
        forall|i: int| 0 <= i < mail.len() ==> mail[i] != 10,
        forall|i: int| 0 <= i < datetime.len() ==> datetime[i] != 10,
        forall|i: int| 0 <= i < body.len() ==> body[i] != 10,
        title matches Some(t) ==> forall|i: int| 0 <= i < t.len() ==> t[i] != 10,
    ensures
        newline_count(file + dat_line_bytes(name, mail, datetime, body, title)) == newline_count(
            file,
        ) + 1,
{
    lemma_dat_line_single_newline(name, mail, datetime, body, title);
    lemma_newline_count_concat(file, dat_line_bytes(name, mail, datetime, body, title));
}

/// Byte-exact round trip: loading a `.dat` whose first line the serializer
/// wrote reproduces the title, and the post count equals one plus the lines
/// of whatever follows. The ordinary fields must not carry `<` (which could
/// forge a separator) or a newline; the title may hold anything but a
/// newline.
pub proof fn lemma_dat_round_trip(
    name: Seq<u8>,
    mail: Seq<u8>,
    datetime: Seq<u8>,
    body: Seq<u8>,
    title: Seq<u8>,
    rest: Seq<u8>,
)
    requires
        forall|i: int| 0 <= i < name.len() ==> name[i] != 10 && name[i] != 60,
        forall|i: int| 0 <= i < mail.len() ==> mail[i] != 10 && mail[i] != 60,
        forall|i: int| 0 <= i < datetime.len() ==> datetime[i] != 10 && datetime[i] != 60,
        forall|i: int| 0 <= i < body.len() ==> body[i] != 10 && body[i] != 60,
        forall|i: int| 0 <= i < title.len() ==> title[i] != 10,
    ensures
        dat_title(dat_line_bytes(name, mail, datetime, body, Some(title)) + rest) == title,
        newline_count(dat_line_bytes(name, mail, datetime, body, Some(title)) + rest)
            == 1 + newline_count(rest),
{
    let line = dat_line_bytes(name, mail, datetime, body, Some(title));
    let s = line + rest;
    let p0 = name.len() as int;
    let q1 = p0 + 2;
    let p1 = q1 + mail.len();
    let q2 = p1 + 2;
    let p2 = q2 + datetime.len();
    let b0 = p2 + 3;
    let b1 = b0 + body.len();
    let s4 = b1 + 1;
    let tt = s4 + 2;
    let e = tt + title.len();
    assert(line.len() == e + 1);
    assert(s.len() == e + 1 + rest.len());
    assert forall|k: int| 0 <= k < p0 implies s[k] == name[k - 0] by {}
    assert forall|k: int| q1 <= k < p1 implies s[k] == mail[k - q1] by {}
    assert forall|k: int| q2 <= k < p2 implies s[k] == datetime[k - q2] by {}
    assert forall|k: int| b0 <= k < b1 implies s[k] == body[k - b0] by {}
    assert forall|k: int| tt <= k < e implies s[k] == title[k - tt] by {}
    assert(s[p0] == 60 && s[p0 + 1] == 62);
    assert(s[p1] == 60 && s[p1 + 1] == 62);
    assert(s[p2] == 60 && s[p2 + 1] == 62);
    assert(s[p2 + 2] == 32);
    assert(s[b1] == 32);
    assert(s[s4] == 60 && s[s4 + 1] == 62);
    assert(s[e] == 10);
    lemma_title_start_skip(s, 0, p0, 0);
    assert(title_start(s, p0, 0) == title_start(s, q1, 1));
    lemma_title_start_skip(s, q1, p1, 1);
    assert(title_start(s, p1, 1) == title_start(s, q2, 2));
    lemma_title_start_skip(s, q2, p2, 2);
    assert(title_start(s, p2, 2) == title_start(s, q2 + datetime.len() + 2, 3));
    assert forall|k: int| p2 + 2 <= k < s4 implies s[k] != 60 && s[k] != 10 by {}
    lemma_title_start_skip(s, p2 + 2, s4, 3);
    assert(title_start(s, s4, 3) == Some(tt));
    assert(title_start(s, 0, 0) == Some(tt));
    assert forall|k: int| tt <= k < e implies s[k] != 10 by {}
    lemma_line_end_at(s, tt, e);
    assert(s.subrange(tt, e) =~= title);
    assert(dat_title(s) == title);
    lemma_newline_count_concat(line, rest);
    lemma_dat_line_single_newline(name, mail, datetime, body, Some(title));
}

impl Post {
    /// A post as the handler first assembles it: the datetime is empty until
    /// the pipeline fills it in.
    pub fn new(name: Vec<u8>, mail: Vec<u8>, body: Vec<u8>, title: Option<Vec<u8>>) -> (r: Self)
        ensures
            r.name == name,
            r.mail == mail,
            r.body == body,
            r.title == title,
            r.datetime@ =~= Seq::<u8>::empty(),
    {
        Post { name, mail, datetime: Vec::new(), body, title }
    }

    pub fn name(&self) -> (r: &Vec<u8>)
        ensures
            r == &self.name,
    {
        &self.name
    }

    pub fn name_mut(&mut self) -> (r: &mut Vec<u8>)
        ensures
            *r == old(self).name,
            *final(self) == (Post { name: *final(r), ..*old(self) }),
    {
        &mut self.name
    }

    pub fn mail(&self) -> (r: &Vec<u8>)
        ensures
            r == &self.mail,
    {
        &self.mail
    }

    pub fn mail_mut(&mut self) -> (r: &mut Vec<u8>)
        ensures
            *r == old(self).mail,
            *final(self) == (Post { mail: *final(r), ..*old(self) }),
    {
        &mut self.mail
    }

    pub fn datetime(&self) -> (r: &Vec<u8>)
        ensures
            r == &self.datetime,
    {
        &self.datetime
    }

    pub fn datetime_mut(&mut self) -> (r: &mut Vec<u8>)
        ensures
            *r == old(self).datetime,
            *final(self) == (Post { datetime: *final(r), ..*old(self) }),
    {
        &mut self.datetime
    }

    pub fn body(&self) -> (r: &Vec<u8>)
        ensures
            r == &self.body,
    {
        &self.body
    }

    pub fn body_mut(&mut self) -> (r: &mut Vec<u8>)
        ensures
            *r == old(self).body,
            *final(self) == (Post { body: *final(r), ..*old(self) }),
    {
        &mut self.body
    }

    pub fn title(&self) -> (r: &Option<Vec<u8>>)
        ensures
            r == &self.title,
    {
        &self.title
    }

    pub fn title_mut(&mut self) -> (r: &mut Option<Vec<u8>>)
        ensures
            *r == old(self).title,
            *final(self) == (Post { title: *final(r), ..*old(self) }),
    {
        &mut self.title
    }

    /// Serializes the post as the one line that is appended to the `.dat`
    /// file.
    pub fn dat_line(&self) -> (r: Vec<u8>)
        ensures
            r@ == dat_line_bytes(self.name@, self.mail@, self.datetime@, self.body@, opt_view(self.title)),
    {
        let mut out: Vec<u8> = Vec::new();
        push_bytes(&mut out, self.name.as_slice());
        let ghost s1 = out@;
        out.push(60);
        out.push(62);
        proof {
            assert(out@ =~= s1 + field_sep());
        }
        push_bytes(&mut out, self.mail.as_slice());
        let ghost s2 = out@;
        out.push(60);
        out.push(62);
        proof {
            assert(out@ =~= s2 + field_sep());
        }
        push_bytes(&mut out, self.datetime.as_slice());
        let ghost s3 = out@;
        out.push(60);
        out.push(62);
        out.push(32);
        proof {
            assert(out@ =~= s3 + field_sep() + seq![32u8]);
        }
        push_bytes(&mut out, self.body.as_slice());
        let ghost s4 = out@;
        out.push(32);
        out.push(60);
        out.push(62);
        proof {
            assert(out@ =~= s4 + seq![32u8] + field_sep());
        }
        match &self.title {
            Some(t) => {
                push_bytes(&mut out, t.as_slice());
            },
            None => {},
        }
        out.push(10);
        proof {
            assert(out@ =~= dat_line_bytes(
                self.name@,
                self.mail@,
                self.datetime@,
                self.body@,
                opt_view(self.title),
            ));
        }
        out
    }
}

} // verus!
