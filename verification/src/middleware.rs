//! The two-phase middleware pipeline that decorates a post before it is
//! appended: every `before` hook runs in registration order over a shared
//! data bag, then every `after` hook. The standard middlewares stamp the
//! datetime line (`YYYY/MM/DD(W) HH:MM:SS.cc`), append the per-session id,
//! or mark that the user supplied a cap so no id is generated.
//!
//! The middleware set is closed, so the shared bag is an explicit struct and
//! a middleware is a value of an enum rather than a trait object.

use vstd::prelude::*;

use crate::bytes::push_bytes;
use crate::cacheable::b64_char;
use crate::datetime::{civil_from_unix, civil_of, Civil, MAX_CALENDAR_SEC};
use crate::decimal::{dec_digits, u64_to_dec};
use crate::post::Post;
use crate::settings::{lookup, pairs_view, spec_checked_bool, parse_checked_bool, Settings, YmdWeeks};
use crate::validator::{AlphaNum, Digits};

verus! {

/// Stamps the request instant, shifted into a fixed offset, into the post's
/// datetime line.
#[derive(Clone, Copy, PartialEq, Eq, Structural)]
pub struct DateTime {
    pub offset_sec: i32,
}

/// Japan Standard Time, the offset the legacy boards run under.
pub struct Jst;

/// Appends the opaque per-session id to the datetime line.
pub struct Id;

/// Marks that the user supplied a cap, which suppresses id generation. The
/// hook itself is a stub: attaching it is the signal.
pub struct Cap;

/// An opaque per-session id: a hash of the remote address and a suffix
/// character.
#[derive(Clone, Copy, PartialEq, Eq, Structural)]
pub struct IdHash {
    pub hash: u64,
    pub suffix: u8,
}

/// One middleware of the closed set.
#[derive(Clone, Copy)]
pub enum Middleware {
    DateTime(DateTime),
    Id,
    Cap,
}

/// The values a request hands to the middlewares, already split into plain
/// data: the board name, the thread key with its raw digits, the remote
/// address bytes if one is known, and the user agent if one was sent.
pub struct Request {
    pub board: AlphaNum,
    pub key: Digits,
    pub remote: Option<Vec<u8>>,
    pub user_agent: Option<Vec<u8>>,
}

/// The typed bag the two phases share; one field per middleware that stores
/// anything. Its lifetime is one request.
#[derive(Clone, Copy)]
pub struct PipelineData {
    pub now: Option<(i64, u32)>,
    pub id: Option<IdHash>,
    pub cap: bool,
}

/// The registered middlewares: two ordered phase lists. A middleware
/// attached for both phases stands in both.
pub struct Middlewares {
    pub before: Vec<Middleware>,
    pub after: Vec<Middleware>,
}

impl Jst {
    /// Japan Standard Time is nine hours ahead of UTC.
    pub fn offset_sec() -> (r: i32)
        ensures
            r == 32400,
    {
        9 * 60 * 60
    }
}

impl DateTime {
    /// A bounded offset keeps every shifted instant inside the calendar.
    pub open spec fn wf(&self) -> bool {
        -86400 <= self.offset_sec <= 86400
    }

    pub fn new(offset_sec: i32) -> (r: Self)
        requires
            -86400 <= offset_sec <= 86400,
        ensures
            r.offset_sec == offset_sec,
            r.wf(),
    {
        DateTime { offset_sec }
    }

    pub fn with_jst() -> (r: Self)
        ensures
            r.offset_sec == 32400,
            r.wf(),
    {
        DateTime::new(Jst::offset_sec())
    }

    pub fn with_utc() -> (r: Self)
        ensures
            r.offset_sec == 0,
            r.wf(),
    {
        DateTime::new(0)
    }
}

impl Request {
    pub fn new(
        board: AlphaNum,
        key: Digits,
        remote: Option<Vec<u8>>,
        user_agent: Option<Vec<u8>>,
    ) -> (r: Self)
        ensures
            r.board == board,
            r.key == key,
            r.remote == remote,
            r.user_agent == user_agent,
    {
        Request { board, key, remote, user_agent }
    }

    pub fn board(&self) -> (r: &Vec<u8>)
        ensures
            r == &self.board.value,
    {
        self.board.as_str()
    }

    pub fn key(&self) -> (r: u64)
        ensures
            r == self.key.number,
    {
        self.key.number
    }

    pub fn key_str(&self) -> (r: &Vec<u8>)
        ensures
            r == &self.key.raw,
    {
        self.key.as_str()
    }

    pub fn remote(&self) -> (r: &Option<Vec<u8>>)
        ensures
            r == &self.remote,
    {
        &self.remote
    }

    pub fn user_agent(&self) -> (r: &Option<Vec<u8>>)
        ensures
            r == &self.user_agent,
    {
        &self.user_agent
    }
}

/// The bytes of the `BBS_FORCE_ID` key.
pub open spec fn key_force_id() -> Seq<u8> {
    seq![66u8, 66u8, 83u8, 95u8, 70u8, 79u8, 82u8, 67u8, 69u8, 95u8, 73u8, 68u8]
}

/// The bytes of the `BBS_YMD_WEEKS` key.
pub open spec fn key_ymd_weeks() -> Seq<u8> {
    seq![66u8, 66u8, 83u8, 95u8, 89u8, 77u8, 68u8, 95u8, 87u8, 69u8, 69u8, 75u8, 83u8]
}

/// Whether the board forces an id: the `BBS_FORCE_ID` setting, `true` when
/// the key is absent or its value is untyped.
pub open spec fn spec_force_id(s: &Settings) -> bool {
    match lookup(pairs_view(s.pairs@), key_force_id()) {
        Some(raw) => match spec_checked_bool(raw) {
            Some(b) => b,
            None => true,
        },
        None => true,
    }
}

fn force_id(settings: &Settings) -> (r: bool)
    ensures
        r == spec_force_id(settings),
{
    let key: [u8; 12] = [66, 66, 83, 95, 70, 79, 82, 67, 69, 95, 73, 68];
    proof {
        assert(key@ =~= key_force_id());
    }
    match settings.get(key.as_slice()) {
        Some(raw) => match parse_checked_bool(raw.as_slice()) {
            Some(b) => b,
            None => true,
        },
        None => true,
    }
}

/// The default weekday glyphs, Sunday first: the Shift_JIS kanji for the
/// seven days.
pub open spec fn default_weekday(wd: int) -> Seq<u8> {
    if wd == 0 {
        seq![0x93u8, 0xFAu8]
    } else if wd == 1 {
        seq![0x8Cu8, 0x8Eu8]
    } else if wd == 2 {
        seq![0x89u8, 0xCEu8]
    } else if wd == 3 {
        seq![0x90u8, 0x85u8]
    } else if wd == 4 {
        seq![0x96u8, 0xD8u8]
    } else if wd == 5 {
        seq![0x8Bu8, 0xE0u8]
    } else {
        seq![0x93u8, 0x79u8]
    }
}

/// The glyph printed for a weekday: the board's `BBS_YMD_WEEKS` override when
/// it parses as seven names, the Shift_JIS default otherwise.
pub open spec fn weekday_glyph(s: &Settings, wd: int) -> Seq<u8> {
    match lookup(pairs_view(s.pairs@), key_ymd_weeks()) {
        Some(raw) => match YmdWeeks::spec_from_raw(raw) {
            Some(parts) => parts[wd],
            None => default_weekday(wd),
        },
        None => default_weekday(wd),
    }
}

fn weekday_glyph_exec(settings: &Settings, wd: u8) -> (r: Vec<u8>)
    requires
        wd < 7,
    ensures
        r@ == weekday_glyph(settings, wd as int),
{
    let key: [u8; 13] = [66, 66, 83, 95, 89, 77, 68, 95, 87, 69, 69, 75, 83];
    proof {
        assert(key@ =~= key_ymd_weeks());
    }
    match settings.get(key.as_slice()) {
        Some(raw) => match YmdWeeks::from_raw(raw.as_slice()) {
            Some(parts) => {
                let g = crate::bytes::clone_bytes(&parts[wd as usize]);
                proof {
                    assert(crate::settings::parts_view(parts@)[wd as int] == parts@[wd as int]@);
                }
                g
            },
            None => default_weekday_exec(wd),
        },
        None => default_weekday_exec(wd),
    }
}

fn default_weekday_exec(wd: u8) -> (r: Vec<u8>)
    requires
        wd < 7,
    ensures
        r@ == default_weekday(wd as int),
{
    let mut v: Vec<u8> = Vec::new();
    if wd == 0 {
        v.push(0x93);
        v.push(0xFA);
    } else if wd == 1 {
        v.push(0x8C);
        v.push(0x8E);
    } else if wd == 2 {
        v.push(0x89);
        v.push(0xCE);
    } else if wd == 3 {
        v.push(0x90);
        v.push(0x85);
    } else if wd == 4 {
        v.push(0x96);
        v.push(0xD8);
    } else if wd == 5 {
        v.push(0x8B);
        v.push(0xE0);
    } else {
        v.push(0x93);
        v.push(0x79);
    }
    proof {
        assert(v@ =~= default_weekday(wd as int));
    }
    v
}

/// The running FNV-1a hash of the bytes from `i` on.
pub open spec fn fnv1a_from(s: Seq<u8>, i: int, h: u64) -> u64
    decreases s.len() - i
        when 0 <= i <= s.len()
{
    if i >= s.len() {
        h
    } else {
        fnv1a_from(
            s,
            i + 1,
            vstd::wrapping::u64_specs::wrapping_mul(h ^ (s[i] as u64), 1099511628211),
        )
    }
}

/// The opaque id hash of a remote address: FNV-1a over its bytes.
pub open spec fn id_hash_of(addr: Seq<u8>) -> u64 {
    fnv1a_from(addr, 0, 14695981039346656037)
}

fn compute_id_hash(addr: &[u8]) -> (r: u64)
    ensures
        r == id_hash_of(addr@),
{
    let mut h: u64 = 14695981039346656037;
    let mut i: usize = 0;
    while i < addr.len()
        invariant
            i <= addr@.len(),
            id_hash_of(addr@) == fnv1a_from(addr@, i as int, h),
        decreases addr@.len() - i,
    {
        h = (h ^ (addr[i] as u64)).wrapping_mul(1099511628211);
        i += 1;
    }
    h
}

/// The characters of the id: six bits of the hash per character, low bits
/// first, over the base-64 alphabet.
pub open spec fn id_chars(hash: u64, n: nat) -> Seq<u8>
    decreases n,
{
    if n == 0 {
        Seq::empty()
    } else {
        seq![b64_char((hash & 63) as int)] + id_chars(hash >> 6, (n - 1) as nat)
    }
}

/// The bytes `ID:` followed by eight hash characters and the suffix.
pub open spec fn id_hash_bytes(idh: IdHash) -> Seq<u8> {
    seq![73u8, 68u8, 58u8] + id_chars(idh.hash, 8) + seq![idh.suffix]
}

/// The bytes `ID:???`, printed when an id was forced but no remote address
/// was known.
pub open spec fn id_unknown_bytes() -> Seq<u8> {
    seq![73u8, 68u8, 58u8, 63u8, 63u8, 63u8]
}

fn push_id_hash(out: &mut Vec<u8>, idh: IdHash)
    ensures
        final(out)@ == old(out)@ + id_hash_bytes(idh),
{
    out.push(73);
    out.push(68);
    out.push(58);
    let ghost s0 = out@;
    let mut h: u64 = idh.hash;
    let mut j: usize = 0;
    while j < 8
        invariant
            j <= 8,
            s0 + id_chars(idh.hash, 8) == out@ + id_chars(h, (8 - j) as nat),
        decreases 8 - j,
    {
        proof {
            assert((h & 63) < 64) by (bit_vector);
        }
        let ghost pre = out@;
        let c = crate::cacheable::b64_char_at((h & 63) as u8);
        out.push(c);
        proof {
            assert(id_chars(h, (8 - j) as nat) == seq![b64_char((h & 63) as int)] + id_chars(
                h >> 6,
                (8 - (j + 1)) as nat,
            ));
            assert(out@ =~= pre + seq![b64_char((h & 63) as int)]);
            assert(pre + (seq![b64_char((h & 63) as int)] + id_chars(h >> 6, (8 - (j + 1)) as nat))
                =~= out@ + id_chars(h >> 6, (8 - (j + 1)) as nat));
        }
        h = h >> 6;
        j += 1;
    }
    out.push(idh.suffix);
    proof {
        assert(id_chars(h, 0) =~= Seq::<u8>::empty());
        assert(out@ =~= old(out)@ + id_hash_bytes(idh));
    }
}

/// The datetime line with a single-space delimiter ensured at its end:
/// nothing is added to an empty line or one that already ends in a space.
pub open spec fn delimited(dt: Seq<u8>) -> Seq<u8> {
    if dt.len() == 0 || dt.last() == 32 {
        dt
    } else {
        dt + seq![32u8]
    }
}

/// Reserves room for a decoration and writes the single-space delimiter the
/// format calls for.
fn reserve_and_delimit(v: &mut Vec<u8>, additional: usize)
    ensures
        final(v)@ == delimited(old(v)@),
{
    if v.len() == 0 || v[v.len() - 1] == 32 {
        v.reserve(additional);
    } else {
        if additional < usize::MAX {
            v.reserve(additional + 1);
        }
        v.push(32);
    }
}

/// A run of zero characters.
pub open spec fn zeros(n: nat) -> Seq<u8> {
    Seq::new(n, |i: int| 48u8)
}

/// A number in decimal, zero-padded on the left to at least `w` characters.
pub open spec fn pad_dec(n: nat, w: nat) -> Seq<u8> {
    if dec_digits(n).len() >= w {
        dec_digits(n)
    } else {
        zeros((w - dec_digits(n).len()) as nat) + dec_digits(n)
    }
}

fn push_pad_dec(out: &mut Vec<u8>, n: u64, w: usize)
    ensures
        final(out)@ == old(out)@ + pad_dec(n as nat, w as nat),
{
    let d = u64_to_dec(n);
    if d.len() >= w {
        push_bytes(out, d.as_slice());
    } else {
        let ghost s0 = out@;
        let mut k: usize = d.len();
        proof {
            assert(out@ =~= s0 + zeros(0));
        }
        while k < w
            invariant
                d@.len() <= k <= w,
                d@ == dec_digits(n as nat),
                out@ == s0 + zeros((k - d@.len()) as nat),
            decreases w - k,
        {
            out.push(48);
            proof {
                assert(out@ =~= s0 + zeros((k + 1 - d@.len()) as nat));
            }
            k += 1;
        }
        push_bytes(out, d.as_slice());
        proof {
            assert((s0 + zeros((w - d@.len()) as nat)) + d@ =~= s0 + (zeros((w - d@.len()) as nat)
                + d@));
            assert(out@ =~= s0 + pad_dec(n as nat, w as nat));
        }
    }
}

/// The formatted datetime line for one instant: `YYYY/MM/DD(W) HH:MM:SS.cc`,
/// where the civil fields come from the calendar, the weekday glyph from the
/// board's settings, and centiseconds at or past a hundred (a leap second)
/// roll into the next second.
pub open spec fn datetime_bytes(
    s: &Settings,
    civ: (int, int, int, int, int, int, int),
    cs0: int,
) -> Seq<u8> {
    let (y, mo, d, wd, h, mi, sec) = civ;
    let sec2 = if cs0 >= 100 {
        sec + 1
    } else {
        sec
    };
    let cs = if cs0 >= 100 {
        cs0 - 100
    } else {
        cs0
    };
    pad_dec(y as nat, 4) + seq![47u8] + pad_dec(mo as nat, 2) + seq![47u8] + pad_dec(d as nat, 2)
        + seq![40u8] + weekday_glyph(s, wd) + seq![41u8, 32u8] + pad_dec(h as nat, 2) + seq![58u8]
        + pad_dec(mi as nat, 2) + seq![58u8] + pad_dec(sec2 as nat, 2) + seq![46u8] + pad_dec(
        cs as nat,
        2,
    )
}

/// Appends the formatted datetime for already-split civil fields.
fn push_datetime(out: &mut Vec<u8>, settings: &Settings, civ: &Civil, cs0: u32)
    requires
        cs0 < 200,
        1970 <= civ.year <= 9999,
        1 <= civ.month <= 12,
        1 <= civ.day <= 31,
        civ.weekday < 7,
        civ.hour < 24,
        civ.minute < 60,
        civ.second < 60,
    ensures
        final(out)@ == old(out)@ + datetime_bytes(
            settings,
            (
                civ.year as int,
                civ.month as int,
                civ.day as int,
                civ.weekday as int,
                civ.hour as int,
                civ.minute as int,
                civ.second as int,
            ),
            cs0 as int,
        ),
{
    let (sec2, cs): (u8, u32) = if cs0 >= 100 {
        (civ.second + 1, cs0 - 100)
    } else {
        (civ.second, cs0)
    };
    let ghost base = out@;
    push_pad_dec(out, civ.year as u64, 4);
    let ghost c1 = pad_dec(civ.year as nat, 4);
    out.push(47);
    let ghost c2 = c1 + seq![47u8];
    proof {
        assert((base + c1).push(47u8) =~= (base + c1) + seq![47u8]);
        vstd::seq_lib::lemma_concat_associative(base, c1, seq![47u8]);
    }
    push_pad_dec(out, civ.month as u64, 2);
    let ghost c3 = c2 + pad_dec(civ.month as nat, 2);
    proof {
        vstd::seq_lib::lemma_concat_associative(base, c2, pad_dec(civ.month as nat, 2));
    }
    out.push(47);
    let ghost c4 = c3 + seq![47u8];
    proof {
        assert((base + c3).push(47u8) =~= (base + c3) + seq![47u8]);
        vstd::seq_lib::lemma_concat_associative(base, c3, seq![47u8]);
    }
    push_pad_dec(out, civ.day as u64, 2);
    let ghost c5 = c4 + pad_dec(civ.day as nat, 2);
    proof {
        vstd::seq_lib::lemma_concat_associative(base, c4, pad_dec(civ.day as nat, 2));
    }
    out.push(40);
    let ghost c6 = c5 + seq![40u8];
    proof {
        assert((base + c5).push(40u8) =~= (base + c5) + seq![40u8]);
        vstd::seq_lib::lemma_concat_associative(base, c5, seq![40u8]);
    }
    let glyph = weekday_glyph_exec(settings, civ.weekday);
    push_bytes(out, glyph.as_slice());
    let ghost c7 = c6 + weekday_glyph(settings, civ.weekday as int);
    proof {
        vstd::seq_lib::lemma_concat_associative(base, c6, weekday_glyph(settings, civ.weekday as int));
    }
    out.push(41);
    out.push(32);
    let ghost c8 = c7 + seq![41u8, 32u8];
    proof {
        assert((base + c7).push(41u8).push(32u8) =~= (base + c7) + seq![41u8, 32u8]);
        vstd::seq_lib::lemma_concat_associative(base, c7, seq![41u8, 32u8]);
    }
    push_pad_dec(out, civ.hour as u64, 2);
    let ghost c9 = c8 + pad_dec(civ.hour as nat, 2);
    proof {
        vstd::seq_lib::lemma_concat_associative(base, c8, pad_dec(civ.hour as nat, 2));
    }
    out.push(58);
    let ghost c10 = c9 + seq![58u8];
    proof {
        assert((base + c9).push(58u8) =~= (base + c9) + seq![58u8]);
        vstd::seq_lib::lemma_concat_associative(base, c9, seq![58u8]);
    }
    push_pad_dec(out, civ.minute as u64, 2);
    let ghost c11 = c10 + pad_dec(civ.minute as nat, 2);
    proof {
        vstd::seq_lib::lemma_concat_associative(base, c10, pad_dec(civ.minute as nat, 2));
    }
    out.push(58);
    let ghost c12 = c11 + seq![58u8];
    proof {
        assert((base + c11).push(58u8) =~= (base + c11) + seq![58u8]);
        vstd::seq_lib::lemma_concat_associative(base, c11, seq![58u8]);
    }
    push_pad_dec(out, sec2 as u64, 2);
    let ghost c13 = c12 + pad_dec(sec2 as nat, 2);
    proof {
        vstd::seq_lib::lemma_concat_associative(base, c12, pad_dec(sec2 as nat, 2));
    }
    out.push(46);
    let ghost c14 = c13 + seq![46u8];
    proof {
        assert((base + c13).push(46u8) =~= (base + c13) + seq![46u8]);
        vstd::seq_lib::lemma_concat_associative(base, c13, seq![46u8]);
    }
    push_pad_dec(out, cs as u64, 2);
    let ghost c15 = c14 + pad_dec(cs as nat, 2);
    proof {
        vstd::seq_lib::lemma_concat_associative(base, c14, pad_dec(cs as nat, 2));
        assert(c15 == datetime_bytes(
            settings,
            (
                civ.year as int,
                civ.month as int,
                civ.day as int,
                civ.weekday as int,
                civ.hour as int,
                civ.minute as int,
                civ.second as int,
            ),
            cs0 as int,
        ));
    }
}

/// The empty shared bag a pipeline run starts from.
pub open spec fn empty_data() -> PipelineData {
    PipelineData { now: None, id: None, cap: false }
}

/// What one `before` hook does to the bag: the datetime middleware stores the
/// instant; the id middleware derives an id from the remote address when no
/// cap is set, the board forces ids, and an address is known; the cap stub
/// sets its flag.
pub open spec fn run_before_one(
    m: Middleware,
    data: PipelineData,
    remote: Option<Vec<u8>>,
    s: &Settings,
    now: (i64, u32),
) -> PipelineData {
    match m {
        Middleware::DateTime(_) => PipelineData { now: Some(now), ..data },
        Middleware::Id => match remote {
            Some(addr) => if !data.cap && spec_force_id(s) {
                PipelineData { id: Some(IdHash { hash: id_hash_of(addr@), suffix: 48 }), ..data }
            } else {
                data
            },
            None => data,
        },
        Middleware::Cap => PipelineData { cap: true, ..data },
    }
}

pub open spec fn run_before_from(
    list: Seq<Middleware>,
    i: int,
    data: PipelineData,
    remote: Option<Vec<u8>>,
    s: &Settings,
    now: (i64, u32),
) -> PipelineData
    decreases list.len() - i
        when 0 <= i <= list.len()
{
    if i >= list.len() {
        data
    } else {
        run_before_from(list, i + 1, run_before_one(list[i], data, remote, s, now), remote, s, now)
    }
}

/// What one `after` hook appends to the datetime line.
pub open spec fn run_after_one(
    m: Middleware,
    dt: Seq<u8>,
    data: PipelineData,
    s: &Settings,
) -> Seq<u8> {
    match m {
        Middleware::DateTime(d) => match data.now {
            Some((sec, ns)) => delimited(dt) + datetime_bytes(
                s,
                civil_of(sec + d.offset_sec),
                ns as int / 10_000_000,
            ),
            None => dt,
        },
        Middleware::Id => match data.id {
            Some(idh) => delimited(dt) + id_hash_bytes(idh),
            None => if spec_force_id(s) {
                delimited(dt) + id_unknown_bytes()
            } else {
                dt
            },
        },
        Middleware::Cap => dt,
    }
}

pub open spec fn run_after_from(
    list: Seq<Middleware>,
    i: int,
    dt: Seq<u8>,
    data: PipelineData,
    s: &Settings,
) -> Seq<u8>
    decreases list.len() - i
        when 0 <= i <= list.len()
{
    if i >= list.len() {
        dt
    } else {
        run_after_from(list, i + 1, run_after_one(list[i], dt, data, s), data, s)
    }
}

/// What a whole pipeline run leaves in the post's datetime line, for a run at
/// the given instant.
pub open spec fn spec_apply_datetime(
    mws: &Middlewares,
    dt: Seq<u8>,
    remote: Option<Vec<u8>>,
    s: &Settings,
    now_sec: i64,
    now_ns: u32,
) -> Seq<u8> {
    run_after_from(
        mws.after@,
        0,
        dt,
        run_before_from(mws.before@, 0, empty_data(), remote, s, (now_sec, now_ns)),
        s,
    )
}

pub open spec fn mw_wf(m: Middleware) -> bool {
    match m {
        Middleware::DateTime(d) => d.wf(),
        Middleware::Id => true,
        Middleware::Cap => true,
    }
}

impl Middlewares {
    pub open spec fn wf(&self) -> bool {
        (forall|i: int| 0 <= i < self.before@.len() ==> mw_wf(#[trigger] self.before@[i]))
            && (forall|i: int| 0 <= i < self.after@.len() ==> mw_wf(#[trigger] self.after@[i]))
    }

    pub fn new() -> (r: Self)
        ensures
            r.before@ =~= Seq::<Middleware>::empty(),
            r.after@ =~= Seq::<Middleware>::empty(),
            r.wf(),
    {
        Middlewares { before: Vec::new(), after: Vec::new() }
    }

    /// Registers a middleware for both phases.
    pub fn attach(&mut self, m: Middleware)
        requires
            old(self).wf(),
            mw_wf(m),
        ensures
            final(self).before@ == old(self).before@.push(m),
            final(self).after@ == old(self).after@.push(m),
            final(self).wf(),
    {
        self.before.push(m);
        self.after.push(m);
    }

    /// Registers a middleware for the `before` phase alone.
    pub fn attach_before(&mut self, m: Middleware)
        requires
            old(self).wf(),
            mw_wf(m),
        ensures
            final(self).before@ == old(self).before@.push(m),
            final(self).after@ == old(self).after@,
            final(self).wf(),
    {
        self.before.push(m);
    }

    /// Registers a middleware for the `after` phase alone.
    pub fn attach_after(&mut self, m: Middleware)
        requires
            old(self).wf(),
            mw_wf(m),
        ensures
            final(self).before@ == old(self).before@,
            final(self).after@ == old(self).after@.push(m),
            final(self).wf(),
    {
        self.after.push(m);
    }

    pub fn before(&self) -> (r: &Vec<Middleware>)
        ensures
            r == &self.before,
    {
        &self.before
    }

    pub fn after(&self) -> (r: &Vec<Middleware>)
        ensures
            r == &self.after,
    {
        &self.after
    }

    /// Runs the pipeline for a request at a given instant: every `before`
    /// hook in order, then every `after` hook. None of the standard
    /// middlewares fails, so the run always succeeds; the result type stands
    /// because a failing hook would short-circuit with its error bytes.
    pub fn apply_at(
        &self,
        post: &mut Post,
        req: &Request,
        settings: &Settings,
        now_sec: i64,
        now_ns: u32,
    ) -> (r: Result<(), Vec<u8>>)
        requires
            self.wf(),
            86400 <= now_sec <= MAX_CALENDAR_SEC - 86400,
            now_ns < 2_000_000_000,
        ensures
            r is Ok,
            final(post).name == old(post).name,
            final(post).mail == old(post).mail,
            final(post).body == old(post).body,
            final(post).title == old(post).title,
            final(post).datetime@ == spec_apply_datetime(
                self,
                old(post).datetime@,
                req.remote,
                settings,
                now_sec,
                now_ns,
            ),
    {
        let ghost now = (now_sec, now_ns);
        let mut data = PipelineData { now: None, id: None, cap: false };
        let mut i: usize = 0;
        while i < self.before.len()
            invariant
                i <= self.before@.len(),
                now == (now_sec, now_ns),
                run_before_from(self.before@, 0, empty_data(), req.remote, settings, now)
                    == run_before_from(self.before@, i as int, data, req.remote, settings, now),
                data.now is Some ==> data.now == Some(now),
            decreases self.before@.len() - i,
        {
            let ghost dpre = data;
            let m = self.before[i];
            match m {
                Middleware::DateTime(_) => {
                    data.now = Some((now_sec, now_ns));
                },
                Middleware::Id => {
                    if !data.cap && force_id(settings) {
                        match &req.remote {
                            Some(addr) => {
                                data.id = Some(
                                    IdHash { hash: compute_id_hash(addr.as_slice()), suffix: 48 },
                                );
                            },
                            None => {},
                        }
                    }
                },
                Middleware::Cap => {
                    data.cap = true;
                },
            }
            proof {
                assert(data == run_before_one(self.before@[i as int], dpre, req.remote, settings, now));
            }
            i += 1;
        }
        proof {
            assert(run_before_from(self.before@, 0, empty_data(), req.remote, settings, now) == data);
        }
        let ghost dt0 = post.datetime@;
        let ghost bag = data;
        let mut j: usize = 0;
        while j < self.after.len()
            invariant
                j <= self.after@.len(),
                data == bag,
                now == (now_sec, now_ns),
                bag.now is Some ==> bag.now == Some(now),
                86400 <= now_sec <= MAX_CALENDAR_SEC - 86400,
                now_ns < 2_000_000_000,
                forall|k: int| 0 <= k < self.after@.len() ==> mw_wf(#[trigger] self.after@[k]),
                post.name == old(post).name,
                post.mail == old(post).mail,
                post.body == old(post).body,
                post.title == old(post).title,
                run_after_from(self.after@, 0, dt0, bag, settings) == run_after_from(
                    self.after@,
                    j as int,
                    post.datetime@,
                    bag,
                    settings,
                ),
            decreases self.after@.len() - j,
        {
            let ghost dtpre = post.datetime@;
            proof {
                assert(mw_wf(self.after@[j as int]));
            }
            let m = self.after[j];
            match m {
                Middleware::DateTime(d) => {
                    match data.now {
                        Some((sec, ns)) => {
                            reserve_and_delimit(&mut post.datetime, 32);
                            let civ = civil_from_unix(sec + (d.offset_sec as i64));
                            let cs0 = ns / 10_000_000;
                            push_datetime(&mut post.datetime, settings, &civ, cs0);
                            proof {
                                assert(post.datetime@ =~= run_after_one(
                                    m,
                                    dtpre,
                                    bag,
                                    settings,
                                ));
                            }
                        },
                        None => {},
                    }
                },
                Middleware::Id => {
                    match data.id {
                        Some(idh) => {
                            reserve_and_delimit(&mut post.datetime, 13);
                            push_id_hash(&mut post.datetime, idh);
                        },
                        None => {
                            if force_id(settings) {
                                reserve_and_delimit(&mut post.datetime, 7);
                                post.datetime.push(73);
                                post.datetime.push(68);
                                post.datetime.push(58);
                                post.datetime.push(63);
                                post.datetime.push(63);
                                post.datetime.push(63);
                                proof {
                                    assert(post.datetime@ =~= delimited(dtpre)
                                        + id_unknown_bytes());
                                }
                            }
                        },
                    }
                },
                Middleware::Cap => {},
            }
            proof {
                assert(post.datetime@ == run_after_one(self.after@[j as int], dtpre, bag, settings));
            }
            j += 1;
        }
        Ok(())
    }

    /// Runs the pipeline at the present instant. What the clock reports picks
    /// the instant (clamped into the supported calendar); everything else is
    /// as `apply_at` has it.
    pub fn apply(&self, post: &mut Post, req: &Request, settings: &Settings) -> (r: Result<
        (),
        Vec<u8>,
    >)
        requires
            self.wf(),
        ensures
            r is Ok,
            final(post).name == old(post).name,
            final(post).mail == old(post).mail,
            final(post).body == old(post).body,
            final(post).title == old(post).title,
            exists|t: i64, n: u32|
                86400 <= t <= MAX_CALENDAR_SEC - 86400 && n < 2_000_000_000 && final(post).datetime@ == #[trigger] spec_apply_datetime(
                    self,
                    old(post).datetime@,
                    req.remote,
                    settings,
                    t,
                    n,
                ),
    {
        let (sec, ns) = crate::datetime::now_unix();
        let t: i64 = if sec < 86400 {
            86400
        } else if sec > MAX_CALENDAR_SEC - 86400 {
            MAX_CALENDAR_SEC - 86400
        } else {
            sec
        };
        let r = self.apply_at(post, req, settings, t, ns);
        proof {
            assert(86400 <= t <= MAX_CALENDAR_SEC - 86400 && ns < 2_000_000_000 && post.datetime@
                == spec_apply_datetime(self, old(post).datetime@, req.remote, settings, t, ns));
        }
        r
    }
}

} // verus!
