//! A byte artifact bundled with its HTTP validators (`ETag`, `Last-Modified`,
//! the modification instant), and the cache-validation logic that turns a
//! request's conditional headers into a `304` / `200` / `206` / `416` reply.

use vstd::prelude::*;
use vstd::slice::{slice_subrange, slice_to_vec};

use crate::bytes::bytes_eq;
use crate::datetime::{
    http_date_of, parse_http_date, rfc822_of, rfc822_utc, now_unix, MAX_CALENDAR_SEC,
};
use crate::decimal::{all_dec_digits, dec_value};

verus! {

/// A modification instant: Unix seconds and nanoseconds into the second.
#[derive(Clone, Copy, PartialEq, Eq, Structural, Debug)]
pub struct Mtime {
    pub sec: i64,
    pub nsec: i32,
}

/// The HTTP validators of one artifact. The `etag` is always 13 bytes (11
/// base-64 characters in quotes) and `modified` is always a 29-byte RFC-822
/// date line.
pub struct Metadata {
    pub etag: Vec<u8>,
    pub modified: Vec<u8>,
    pub mtime: Mtime,
}

/// A body tagged with its validators. Readers take the body and the metadata
/// together; writers re-stamp the metadata whenever they touch the body.
pub struct Cacheable<T> {
    pub body: T,
    pub metadata: Metadata,
}

/// The base-64 alphabet, `A`..`Z`, `a`..`z`, `0`..`9`, `+`, `/`.
pub open spec fn b64_char(i: int) -> u8 {
    if i < 26 {
        (65 + i) as u8
    } else if i < 52 {
        (97 + (i - 26)) as u8
    } else if i < 62 {
        (48 + (i - 52)) as u8
    } else if i == 62 {
        43u8
    } else {
        47u8
    }
}

/// One character of the tag: the legacy derivation masks the running hash
/// with `(hash | 0b111111) & 63` before the table lookup.
pub open spec fn etag_char(hash: u64) -> u8 {
    b64_char(((hash | 0x3f) & 0x3f) as int)
}

/// The inner characters of the tag: one per 6-bit shift of the hash.
pub open spec fn etag_inner(hash: u64, n: nat) -> Seq<u8>
    decreases n,
{
    if n == 0 {
        Seq::empty()
    } else {
        seq![etag_char(hash)] + etag_inner(hash >> 6, (n - 1) as nat)
    }
}

/// The hash an artifact identity and its modification second derive: the
/// wrapping product of the two.
pub open spec fn etag_hash(id: u64, sec: i64) -> u64 {
    vstd::wrapping::u64_specs::wrapping_mul(id, sec as u64)
}

/// The full 13-byte tag: 11 derived characters in double quotes.
pub open spec fn etag_bytes(id: u64, sec: i64) -> Seq<u8> {
    seq![34u8] + etag_inner(etag_hash(id, sec), 11) + seq![34u8]
}

pub proof fn lemma_etag_inner_len(hash: u64, n: nat)
    ensures
        etag_inner(hash, n).len() == n,
    decreases n,
{
    if n > 0 {
        lemma_etag_inner_len(hash >> 6, (n - 1) as nat);
    }
}

pub(crate) fn b64_char_at(i: u8) -> (r: u8)
    requires
        i < 64,
    ensures
        r == b64_char(i as int),
{
    if i < 26 {
        65 + i
    } else if i < 52 {
        97 + (i - 26)
    } else if i < 62 {
        48 + (i - 52)
    } else if i == 62 {
        43
    } else {
        47
    }
}

/// Renders the 13-byte tag for an identity and a modification second.
fn compute_etag(id: u64, sec: i64) -> (r: Vec<u8>)
    ensures
        r@ == etag_bytes(id, sec),
        r@.len() == 13,
{
    let hash0: u64 = id.wrapping_mul(#[verifier::truncate] (sec as u64));
    let mut v: Vec<u8> = Vec::with_capacity(13);
    v.push(34);
    let mut h: u64 = hash0;
    let mut j: usize = 0;
    while j < 11
        invariant
            j <= 11,
            seq![34u8] + etag_inner(hash0, 11) == v@ + etag_inner(h, (11 - j) as nat),
        decreases 11 - j,
    {
        proof {
            assert(((h | 0x3f) & 0x3f) < 64) by (bit_vector);
        }
        let ghost vpre = v@;
        let idx: u8 = ((h | 0x3f) & 0x3f) as u8;
        let c = b64_char_at(idx);
        v.push(c);
        proof {
            assert(c == etag_char(h));
            assert(etag_inner(h, (11 - j) as nat) == seq![etag_char(h)] + etag_inner(
                h >> 6,
                (11 - (j + 1)) as nat,
            ));
            assert(v@ =~= vpre + seq![etag_char(h)]);
            assert(vpre + (seq![etag_char(h)] + etag_inner(h >> 6, (11 - (j + 1)) as nat)) =~= (vpre
                + seq![etag_char(h)]) + etag_inner(h >> 6, (11 - (j + 1)) as nat));
        }
        h = h >> 6;
        j += 1;
    }
    v.push(34);
    proof {
        lemma_etag_inner_len(hash0, 11);
        assert(etag_inner(h, 0) =~= Seq::<u8>::empty());
        assert(v@ =~= etag_bytes(id, sec));
    }
    v
}

/// A sequence of space bytes.
pub open spec fn spec_spaces(n: nat) -> Seq<u8> {
    Seq::new(n, |i: int| 32u8)
}

/// A date line forced to exactly 29 bytes: longer renderings are cut, shorter
/// ones padded with spaces, so responses keep a stable width.
pub open spec fn fit29(s: Seq<u8>) -> Seq<u8> {
    if s.len() >= 29 {
        s.subrange(0, 29)
    } else {
        s + spec_spaces((29 - s.len()) as nat)
    }
}

/// What the `modified` field holds for a modification second: the RFC-822
/// line fitted to 29 bytes, or 29 spaces for an instant outside the calendar
/// range (the sentinel of a default artifact is such an instant).
pub open spec fn modified_repr(sec: i64) -> Seq<u8> {
    if 0 <= sec <= MAX_CALENDAR_SEC {
        fit29(rfc822_of(sec as int))
    } else {
        spec_spaces(29)
    }
}

fn fit29_exec(s: Vec<u8>) -> (r: Vec<u8>)
    ensures
        r@ == fit29(s@),
        r@.len() == 29,
{
    let mut v = s;
    if v.len() >= 29 {
        v.truncate(29);
        v
    } else {
        while v.len() < 29
            invariant
                s@.len() < 29,
                v@.len() <= 29,
                v@.len() >= s@.len(),
                v@ == s@ + spec_spaces((v@.len() - s@.len()) as nat),
            decreases 29 - v.len(),
        {
            v.push(32);
            proof {
                assert(v@ =~= s@ + spec_spaces((v@.len() - s@.len()) as nat));
            }
        }
        proof {
            assert(v@ =~= fit29(s@));
        }
        v
    }
}

fn render_modified(sec: i64) -> (r: Vec<u8>)
    ensures
        r@ == modified_repr(sec),
        r@.len() == 29,
{
    if 0 <= sec && sec <= MAX_CALENDAR_SEC {
        fit29_exec(rfc822_utc(sec))
    } else {
        let mut v: Vec<u8> = Vec::new();
        proof {
            assert(v@ =~= spec_spaces(0));
        }
        while v.len() < 29
            invariant
                v@.len() <= 29,
                v@ == spec_spaces(v@.len()),
            decreases 29 - v.len(),
        {
            v.push(32);
            proof {
                assert(v@ =~= spec_spaces(v@.len()));
            }
        }
        proof {
            assert(v@ =~= spec_spaces(29));
        }
        v
    }
}

impl Metadata {
    /// Both validators present and of their fixed widths.
    pub open spec fn wf(&self) -> bool {
        self.etag@.len() == 13 && self.modified@.len() == 29
    }

    /// Validators stamped for the given identity at the given instant.
    pub fn new(id: u64, mtime: Mtime) -> (r: Self)
        ensures
            r.mtime == mtime,
            r.etag@ == etag_bytes(id, mtime.sec),
            r.modified@ == modified_repr(mtime.sec),
            r.wf(),
    {
        Metadata { etag: compute_etag(id, mtime.sec), modified: render_modified(mtime.sec), mtime }
    }

    /// Validators stamped for the given identity at the present instant,
    /// whatever the clock reports.
    pub fn now(id: u64) -> (r: Self)
        ensures
            r.etag@ == etag_bytes(id, r.mtime.sec),
            r.modified@ == modified_repr(r.mtime.sec),
            r.wf(),
            0 <= r.mtime.nsec < 2_000_000_000,
    {
        let (sec, ns) = now_unix();
        Metadata::new(id, Mtime { sec, nsec: ns as i32 })
    }

    /// Re-stamps the validators: the instant becomes now, and the tag is
    /// derived from the identity and the new instant.
    pub fn modify(&mut self, id: u64)
        ensures
            final(self).etag@ == etag_bytes(id, final(self).mtime.sec),
            final(self).modified@ == modified_repr(final(self).mtime.sec),
            final(self).wf(),
            0 <= final(self).mtime.nsec < 2_000_000_000,
    {
        *self = Metadata::now(id);
    }
}

impl Default for Metadata {
    /// The sentinel validators of an artifact that was never stamped: the
    /// instant lies before every representable date, so no conditional
    /// request can match it accidentally.
    fn default() -> (r: Self)
        ensures
            r.mtime == (Mtime { sec: i64::MIN, nsec: 0 }),
            r.etag@ == etag_bytes(0, i64::MIN),
            r.modified@ == modified_repr(i64::MIN),
            r.wf(),
    {
        Metadata::new(0, Mtime { sec: i64::MIN, nsec: 0 })
    }
}

impl Clone for Metadata {
    fn clone(&self) -> (r: Self)
        ensures
            r.etag@ == self.etag@,
            r.modified@ == self.modified@,
            r.mtime == self.mtime,
    {
        Metadata {
            etag: crate::bytes::clone_bytes(&self.etag),
            modified: crate::bytes::clone_bytes(&self.modified),
            mtime: self.mtime,
        }
    }
}

impl<T> Cacheable<T> {
    pub fn new(body: T, metadata: Metadata) -> (r: Self)
        ensures
            r.body == body,
            r.metadata == metadata,
    {
        Cacheable { body, metadata }
    }

    /// Hands out the body for writing and re-stamps the validators, so that
    /// what a reader sees under an unchanged tag never changes.
    pub fn modify(&mut self, id: u64) -> (r: &mut T)
        ensures
            *r == old(self).body,
            final(self).body == *final(r),
            final(self).metadata.etag@ == etag_bytes(id, final(self).metadata.mtime.sec),
            final(self).metadata.modified@ == modified_repr(final(self).metadata.mtime.sec),
            final(self).metadata.wf(),
    {
        self.metadata.modify(id);
        &mut self.body
    }

    pub fn body(&self) -> (r: &T)
        ensures
            r == &self.body,
    {
        &self.body
    }

    /// Mutable access to the body alone; the validators stay as they were, so
    /// the caller must re-stamp (or replace) before readers may see the new
    /// bytes.
    pub fn body_mut(&mut self) -> (r: &mut T)
        ensures
            *r == old(self).body,
            final(self).body == *final(r),
            final(self).metadata == old(self).metadata,
    {
        &mut self.body
    }
}

impl Clone for Cacheable<Vec<u8>> {
    fn clone(&self) -> (r: Self)
        ensures
            r.body@ == self.body@,
            r.metadata.etag@ == self.metadata.etag@,
            r.metadata.modified@ == self.metadata.modified@,
            r.metadata.mtime == self.metadata.mtime,
    {
        Cacheable { body: crate::bytes::clone_bytes(&self.body), metadata: self.metadata.clone() }
    }
}

/// The conditional headers of one request, already split into plain values:
/// every `If-None-Match` value, the first `If-Modified-Since` value, and
/// every `Range` value.
pub struct RequestHeaders {
    pub if_none_match: Vec<Vec<u8>>,
    pub if_modified_since: Option<Vec<u8>>,
    pub range: Vec<Vec<u8>>,
}

/// What the cache layer answers: not modified (`304`, validators only), the
/// whole body (`200`), one slice of it (`206`), or a refusal of the requested
/// range (`416`).
pub enum CacheResponse {
    NotModified,
    Full(Vec<u8>),
    Partial(Vec<u8>),
    NotSatisfiable,
}

/// Some `If-None-Match` value equals the artifact's tag, byte for byte.
pub open spec fn inm_matches(h: &RequestHeaders, m: &Metadata) -> bool {
    exists|i: int| 0 <= i < h.if_none_match@.len() && #[trigger] h.if_none_match@[i]@ == m.etag@
}

/// The `If-Modified-Since` value parses as an HTTP date lying strictly before
/// the artifact's modification second.
pub open spec fn ims_not_modified(h: &RequestHeaders, m: &Metadata) -> bool {
    match h.if_modified_since {
        Some(v) => match http_date_of(v@) {
            Some(t) => t < m.mtime.sec,
            None => false,
        },
        None => false,
    }
}

/// Index of the first `'-'` at or after `i`, or the length if there is none.
pub open spec fn dash_pos(s: Seq<u8>, i: int) -> int
    decreases s.len() - i
        when 0 <= i <= s.len()
{
    if i >= s.len() {
        s.len() as int
    } else if s[i] == 45 {
        i
    } else {
        dash_pos(s, i + 1)
    }
}

/// A decimal byte-range bound, accepted only when it is all digits and fits
/// the machine's `usize`.
pub open spec fn range_bound(s: Seq<u8>) -> Option<nat> {
    if all_dec_digits(s) && dec_value(s) <= usize::MAX {
        Some(dec_value(s))
    } else {
        None
    }
}

/// One byte-range specifier after `bytes=`: `N-M` with `N <= M`, or `N-`.
pub open spec fn spec_range(s: Seq<u8>) -> Option<(nat, Option<nat>)> {
    let d = dash_pos(s, 0);
    if d == s.len() {
        None
    } else {
        match range_bound(s.subrange(0, d)) {
            None => None,
            Some(n) => if d + 1 == s.len() {
                Some((n, None))
            } else {
                match range_bound(s.subrange(d + 1, s.len() as int)) {
                    Some(m) => if n <= m {
                        Some((n, Some(m)))
                    } else {
                        None
                    },
                    None => None,
                }
            },
        }
    }
}

/// The value begins with the ASCII bytes `bytes=`.
pub open spec fn has_bytes_prefix(v: Seq<u8>) -> bool {
    v.len() >= 6 && v[0] == 98 && v[1] == 121 && v[2] == 116 && v[3] == 101 && v[4] == 115 && v[5]
        == 61
}

/// What the `Range` headers ask of a body: the whole body when no header is
/// present, the half-open byte window `[start, end)` when exactly one header
/// carries one satisfiable specifier, and a refusal in every other case.
pub enum RangeDecision {
    Whole,
    Window(int, int),
    Refused,
}

pub open spec fn range_decision(body: Seq<u8>, h: &RequestHeaders) -> RangeDecision {
    if h.range@.len() == 0 {
        RangeDecision::Whole
    } else if h.range@.len() != 1 {
        RangeDecision::Refused
    } else {
        let v = h.range@[0]@;
        if !has_bytes_prefix(v) {
            RangeDecision::Refused
        } else {
            match spec_range(v.subrange(6, v.len() as int)) {
                Some((s, Some(e))) => if e < body.len() {
                    RangeDecision::Window(s as int, e + 1 as int)
                } else {
                    RangeDecision::Refused
                },
                Some((s, None)) => if s < body.len() {
                    RangeDecision::Window(s as int, body.len() as int)
                } else {
                    RangeDecision::Refused
                },
                None => RangeDecision::Refused,
            }
        }
    }
}

/// Parses one byte-range specifier, as `spec_range` describes it.
fn parse_range(s: &[u8]) -> (r: Option<(usize, Option<usize>)>)
    ensures
        match r {
            Some((n, Some(m))) => spec_range(s@) == Some((n as nat, Some(m as nat))),
            Some((n, None)) => spec_range(s@) == Some((n as nat, Option::<nat>::None)),
            None => spec_range(s@) is None,
        },
{
    proof {
        lemma_dash_pos(s@);
    }
    let d = find_dash(s);
    if d == s.len() {
        return None;
    }
    let left = slice_subrange(s, 0, d);
    let n: usize = match crate::decimal::parse_u64_dec(left) {
        Some(v) => {
            if v > usize::MAX as u64 {
                return None;
            }
            v as usize
        },
        None => {
            return None;
        },
    };
    if d + 1 == s.len() {
        return Some((n, None));
    }
    let right = slice_subrange(s, d + 1, s.len());
    match crate::decimal::parse_u64_dec(right) {
        Some(v) => {
            if v > usize::MAX as u64 {
                return None;
            }
            let m = v as usize;
            if n <= m {
                Some((n, Some(m)))
            } else {
                None
            }
        },
        None => None,
    }
}

proof fn lemma_dash_pos(s: Seq<u8>)
    ensures
        0 <= dash_pos(s, 0) <= s.len(),
        dash_pos(s, 0) < s.len() ==> s[dash_pos(s, 0)] == 45,
        forall|k: int| 0 <= k < dash_pos(s, 0) ==> s[k] != 45,
{
    lemma_dash_pos_from(s, 0);
}

proof fn lemma_dash_pos_from(s: Seq<u8>, i: int)
    requires
        0 <= i <= s.len(),
    ensures
        i <= dash_pos(s, i) <= s.len(),
        dash_pos(s, i) < s.len() ==> s[dash_pos(s, i)] == 45,
        forall|k: int| i <= k < dash_pos(s, i) ==> s[k] != 45,
    decreases s.len() - i,
{
    if i < s.len() && s[i] != 45 {
        lemma_dash_pos_from(s, i + 1);
    }
}

/// The first `'-'` of the slice, or its length.
fn find_dash(s: &[u8]) -> (r: usize)
    ensures
        r == dash_pos(s@, 0),
{
    proof {
        lemma_dash_pos(s@);
    }
    let mut i: usize = 0;
    while i < s.len()
        invariant
            i <= s.len(),
            forall|k: int| 0 <= k < i ==> s@[k] != 45,
        decreases s.len() - i,
    {
        if s[i] == 45 {
            proof {
                lemma_dash_pos(s@);
                if dash_pos(s@, 0) < i {
                    assert(s@[dash_pos(s@, 0)] == 45);
                    assert(false);
                }
                if dash_pos(s@, 0) > i as int {
                    assert(s@[i as int] != 45);
                    assert(false);
                }
            }
            return i;
        }
        i += 1;
    }
    s.len()
}

/// Answers a conditional request over an artifact's body and validators,
/// following the cache-validation order: `If-None-Match` first, then
/// `If-Modified-Since`, then `Range`, then the whole body.
pub fn respond_to(body: &[u8], metadata: &Metadata, headers: &RequestHeaders) -> (r: CacheResponse)
    ensures
        r is NotModified <==> (inm_matches(headers, metadata) || ims_not_modified(
            headers,
            metadata,
        )),
        !(inm_matches(headers, metadata) || ims_not_modified(headers, metadata)) ==> match range_decision(
            body@,
            headers,
        ) {
            RangeDecision::Whole => r matches CacheResponse::Full(b) && b@ == body@,
            RangeDecision::Window(s, e) => r matches CacheResponse::Partial(b) && b@
                == body@.subrange(s, e),
            RangeDecision::Refused => r is NotSatisfiable,
        },
{
    let mut i: usize = 0;
    while i < headers.if_none_match.len()
        invariant
            i <= headers.if_none_match@.len(),
            forall|j: int| 0 <= j < i ==> #[trigger] headers.if_none_match@[j]@
                != metadata.etag@,
        decreases headers.if_none_match@.len() - i,
    {
        if bytes_eq(headers.if_none_match[i].as_slice(), metadata.etag.as_slice()) {
            return CacheResponse::NotModified;
        }
        i += 1;
    }
    match &headers.if_modified_since {
        Some(v) => {
            match parse_http_date(v.as_slice()) {
                Some(t) => {
                    if t < metadata.mtime.sec {
                        return CacheResponse::NotModified;
                    }
                },
                None => {},
            }
        },
        None => {},
    }
    if headers.range.len() > 0 {
        if headers.range.len() != 1 {
            return CacheResponse::NotSatisfiable;
        }
        let v = headers.range[0].as_slice();
        if !(v.len() >= 6 && v[0] == 98 && v[1] == 121 && v[2] == 116 && v[3] == 101 && v[4] == 115
            && v[5] == 61) {
            return CacheResponse::NotSatisfiable;
        }
        let tail = slice_subrange(v, 6, v.len());
        match parse_range(tail) {
            Some((s, Some(e))) => {
                if e < body.len() {
                    return CacheResponse::Partial(slice_to_vec(slice_subrange(body, s, e + 1)));
                }
                CacheResponse::NotSatisfiable
            },
            Some((s, None)) => {
                if s < body.len() {
                    return CacheResponse::Partial(slice_to_vec(slice_subrange(body, s, body.len())));
                }
                CacheResponse::NotSatisfiable
            },
            None => CacheResponse::NotSatisfiable,
        }
    } else {
        CacheResponse::Full(slice_to_vec(body))
    }
}

} // verus!
