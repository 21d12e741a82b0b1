//! Per-board settings: the raw bytes of `SETTING.TXT` (served back verbatim)
//! and the `key=value` pairs its lines carry, with typed readings of the keys
//! the engine understands. Unknown keys are preserved but not typed.

use vstd::prelude::*;
use vstd::slice::{slice_subrange, slice_to_vec};

use crate::bytes::{byte_pos, bytes_eq, find_byte, lemma_byte_pos};
use crate::decimal::{all_dec_digits, dec_value, parse_u64_dec};

verus! {

pub struct Settings {
    pub text: Vec<u8>,
    pub pairs: Vec<(Vec<u8>, Vec<u8>)>,
}

/// Marker for the `BBS_ADULT` setting: `1` is true, `0` is false.
pub struct Adult;

/// Marker for the `BBS_UNICODE` setting: `pass` is true, `change` is false.
pub struct Unicode;

/// Marker for the `BBS_YMD_WEEKS` setting: seven weekday names separated by
/// `/`, Sunday first. Fewer than seven parts reject the whole value.
pub struct YmdWeeks;

/// The pairs one line contributes: none without a `=`, otherwise the bytes
/// before the first `=` and the bytes after it.
pub open spec fn line_pairs(line: Seq<u8>) -> Seq<(Seq<u8>, Seq<u8>)> {
    let d = byte_pos(line, 61, 0);
    if d == line.len() {
        Seq::empty()
    } else {
        seq![(line.subrange(0, d), line.subrange(d + 1, line.len() as int))]
    }
}

/// The pairs of the text from byte `i` on, one line (up to `'\n'` or the end)
/// at a time.
pub open spec fn parse_lines_from(s: Seq<u8>, i: int) -> Seq<(Seq<u8>, Seq<u8>)>
    decreases s.len() - i
        when 0 <= i <= s.len()
        via parse_lines_from_dec
{
    if i >= s.len() {
        Seq::empty()
    } else {
        let e = byte_pos(s, 10, i);
        line_pairs(s.subrange(i, e)) + if e >= s.len() {
            Seq::empty()
        } else {
            parse_lines_from(s, e + 1)
        }
    }
}

#[via_fn]
proof fn parse_lines_from_dec(s: Seq<u8>, i: int) {
    if 0 <= i < s.len() {
        lemma_byte_pos(s, 10, i);
    }
}

/// All `key=value` pairs of a settings file, in file order.
pub open spec fn parse_lines(s: Seq<u8>) -> Seq<(Seq<u8>, Seq<u8>)> {
    parse_lines_from(s, 0)
}

/// The views of a pair list.
pub open spec fn pairs_view(p: Seq<(Vec<u8>, Vec<u8>)>) -> Seq<(Seq<u8>, Seq<u8>)> {
    p.map_values(|q: (Vec<u8>, Vec<u8>)| (q.0@, q.1@))
}

/// The value stored under a key; when a key occurs on several lines the last
/// one wins, as repeated insertion into a plain map would have it.
pub open spec fn lookup(pairs: Seq<(Seq<u8>, Seq<u8>)>, key: Seq<u8>) -> Option<Seq<u8>>
    decreases pairs.len(),
{
    if pairs.len() == 0 {
        None
    } else if pairs.last().0 == key {
        Some(pairs.last().1)
    } else {
        lookup(pairs.drop_last(), key)
    }
}

impl Settings {
    /// Settings of a board without a `SETTING.TXT`: empty text, no pairs.
    pub fn empty() -> (r: Self)
        ensures
            r.text@ =~= Seq::<u8>::empty(),
            r.pairs@ =~= Seq::<(Vec<u8>, Vec<u8>)>::empty(),
            pairs_view(r.pairs@) == parse_lines(r.text@),
    {
        let r = Settings { text: Vec::new(), pairs: Vec::new() };
        proof {
            assert(pairs_view(r.pairs@) =~= parse_lines(r.text@));
        }
        r
    }

    /// Splits the raw file bytes into `key=value` pairs, one setting per
    /// line; lines without `=` are carried in the raw text only.
    pub fn load(text: Vec<u8>) -> (r: Self)
        ensures
            r.text@ == text@,
            pairs_view(r.pairs@) == parse_lines(text@),
    {
        let mut pairs: Vec<(Vec<u8>, Vec<u8>)> = Vec::new();
        let mut pos: usize = 0;
        proof {
            assert(pairs_view(pairs@) =~= Seq::<(Seq<u8>, Seq<u8>)>::empty());
            assert(parse_lines(text@) =~= pairs_view(pairs@) + parse_lines_from(text@, 0));
        }
        while pos < text.len()
            invariant
                pos <= text@.len(),
                parse_lines(text@) == pairs_view(pairs@) + parse_lines_from(text@, pos as int),
            decreases text@.len() - pos,
        {
            let ghost pre = pairs@;
            let e = find_byte(text.as_slice(), 10, pos);
            proof {
                lemma_byte_pos(text@, 10, pos as int);
            }
            let line = slice_subrange(text.as_slice(), pos, e);
            let d = find_byte(line, 61, 0);
            proof {
                lemma_byte_pos(line@, 61, 0);
            }
            if d < line.len() {
                let key = slice_to_vec(slice_subrange(line, 0, d));
                let val = slice_to_vec(slice_subrange(line, d + 1, line.len()));
                pairs.push((key, val));
                proof {
                    assert(pairs_view(pairs@) =~= pairs_view(pre) + line_pairs(line@));
                }
            } else {
                proof {
                    assert(line_pairs(line@) =~= Seq::<(Seq<u8>, Seq<u8>)>::empty());
                    assert(pairs_view(pairs@) =~= pairs_view(pre) + line_pairs(line@));
                }
            }
            proof {
                assert(parse_lines_from(text@, pos as int) == line_pairs(line@) + if e
                    >= text@.len() {
                    Seq::<(Seq<u8>, Seq<u8>)>::empty()
                } else {
                    parse_lines_from(text@, e + 1)
                });
                if e >= text@.len() {
                    assert(pairs_view(pairs@) + parse_lines_from(text@, text@.len() as int)
                        =~= (pairs_view(pre) + line_pairs(line@)) + Seq::<(
                        Seq<u8>,
                        Seq<u8>,
                    )>::empty());
                } else {
                    assert(pairs_view(pre) + (line_pairs(line@) + parse_lines_from(text@, e + 1))
                        =~= (pairs_view(pre) + line_pairs(line@)) + parse_lines_from(text@, e + 1));
                }
            }
            if e >= text.len() {
                pos = text.len();
            } else {
                pos = e + 1;
            }
        }
        proof {
            assert(parse_lines_from(text@, text@.len() as int) =~= Seq::<(Seq<u8>, Seq<u8>)>::empty());
            assert(pairs_view(pairs@) =~= parse_lines(text@));
        }
        Settings { text, pairs }
    }

    /// The raw value stored under a key, the last line winning.
    pub fn get(&self, key: &[u8]) -> (r: Option<&Vec<u8>>)
        ensures
            match r {
                Some(v) => lookup(pairs_view(self.pairs@), key@) == Some(v@),
                None => lookup(pairs_view(self.pairs@), key@) is None,
            },
    {
        let mut i: usize = self.pairs.len();
        proof {
            assert(pairs_view(self.pairs@).subrange(0, i as int) =~= pairs_view(self.pairs@));
        }
        while i > 0
            invariant
                i <= self.pairs@.len(),
                lookup(pairs_view(self.pairs@), key@) == lookup(
                    pairs_view(self.pairs@).subrange(0, i as int),
                    key@,
                ),
            decreases i,
        {
            i -= 1;
            proof {
                assert(pairs_view(self.pairs@).subrange(0, i + 1).drop_last() =~= pairs_view(
                    self.pairs@,
                ).subrange(0, i as int));
                assert(pairs_view(self.pairs@).subrange(0, i + 1).last() == pairs_view(
                    self.pairs@,
                )[i as int]);
            }
            if bytes_eq(self.pairs[i].0.as_slice(), key) {
                return Some(&self.pairs[i].1);
            }
        }
        proof {
            assert(pairs_view(self.pairs@).subrange(0, 0) =~= Seq::<(Seq<u8>, Seq<u8>)>::empty());
        }
        None
    }

    /// The raw file bytes, for serving the file back verbatim.
    pub fn as_bytes(&self) -> (r: &Vec<u8>)
        ensures
            r == &self.text,
    {
        &self.text
    }
}

/// What a `checked`-style boolean raw value means: `checked` is true, the
/// empty value false, anything else untyped.
pub open spec fn spec_checked_bool(raw: Seq<u8>) -> Option<bool> {
    if raw == seq![99u8, 104u8, 101u8, 99u8, 107u8, 101u8, 100u8] {
        Some(true)
    } else if raw.len() == 0 {
        Some(false)
    } else {
        None
    }
}

/// Reads a `checked`-style boolean raw value (`BBS_FORCE_ID` and friends).
pub fn parse_checked_bool(raw: &[u8]) -> (r: Option<bool>)
    ensures
        r == spec_checked_bool(raw@),
{
    let checked: [u8; 7] = [99, 104, 101, 99, 107, 101, 100];
    if bytes_eq(raw, checked.as_slice()) {
        proof {
            assert(checked@ =~= seq![99u8, 104u8, 101u8, 99u8, 107u8, 101u8, 100u8]);
        }
        Some(true)
    } else if raw.len() == 0 {
        proof {
            assert(raw@ =~= Seq::<u8>::empty());
            assert(raw@ != seq![99u8, 104u8, 101u8, 99u8, 107u8, 101u8, 100u8]);
        }
        Some(false)
    } else {
        proof {
            assert(checked@ =~= seq![99u8, 104u8, 101u8, 99u8, 107u8, 101u8, 100u8]);
        }
        None
    }
}

/// The decimal reading of a numeric setting value, when it is all digits and
/// fits in a `u32`.
pub open spec fn spec_u32_value(raw: Seq<u8>) -> Option<u32> {
    if all_dec_digits(raw) && dec_value(raw) <= u32::MAX {
        Some(dec_value(raw) as u32)
    } else {
        None
    }
}

/// Reads a numeric setting value (`BBS_LINE_NUMBER` and friends).
pub fn parse_u32_value(raw: &[u8]) -> (r: Option<u32>)
    ensures
        r == spec_u32_value(raw@),
{
    match parse_u64_dec(raw) {
        Some(v) => if v <= u32::MAX as u64 {
            Some(v as u32)
        } else {
            None
        },
        None => None,
    }
}

impl Adult {
    /// `1` is true, `0` is false, anything else untyped.
    pub open spec fn spec_from_raw(raw: Seq<u8>) -> Option<bool> {
        if raw == seq![49u8] {
            Some(true)
        } else if raw == seq![48u8] {
            Some(false)
        } else {
            None
        }
    }

    pub fn from_raw(raw: &[u8]) -> (r: Option<bool>)
        ensures
            r == Adult::spec_from_raw(raw@),
    {
        if raw.len() == 1 && raw[0] == 49 {
            proof {
                assert(raw@ =~= seq![49u8]);
            }
            Some(true)
        } else if raw.len() == 1 && raw[0] == 48 {
            proof {
                assert(raw@ =~= seq![48u8]);
                assert(raw@ != seq![49u8]);
            }
            Some(false)
        } else {
            proof {
                if raw@.len() == 1 {
                    assert(raw@ != seq![49u8] && raw@ != seq![48u8]) by {
                        assert(raw@[0] != 49 && raw@[0] != 48);
                    }
                }
            }
            None
        }
    }
}

impl Unicode {
    /// `pass` is true, `change` is false, anything else untyped.
    pub open spec fn spec_from_raw(raw: Seq<u8>) -> Option<bool> {
        if raw == seq![112u8, 97u8, 115u8, 115u8] {
            Some(true)
        } else if raw == seq![99u8, 104u8, 97u8, 110u8, 103u8, 101u8] {
            Some(false)
        } else {
            None
        }
    }

    pub fn from_raw(raw: &[u8]) -> (r: Option<bool>)
        ensures
            r == Unicode::spec_from_raw(raw@),
    {
        let pass: [u8; 4] = [112, 97, 115, 115];
        let change: [u8; 6] = [99, 104, 97, 110, 103, 101];
        proof {
            assert(pass@ =~= seq![112u8, 97u8, 115u8, 115u8]);
            assert(change@ =~= seq![99u8, 104u8, 97u8, 110u8, 103u8, 101u8]);
        }
        if bytes_eq(raw, pass.as_slice()) {
            Some(true)
        } else if bytes_eq(raw, change.as_slice()) {
            Some(false)
        } else {
            None
        }
    }
}

/// The parts of a value split on `/`, from byte `i` on; splitting never
/// yields an empty list (an empty value gives one empty part).
pub open spec fn split_slash_from(s: Seq<u8>, i: int) -> Seq<Seq<u8>>
    decreases s.len() - i
        when 0 <= i <= s.len()
        via split_slash_from_dec
{
    let p = byte_pos(s, 47, i);
    if p >= s.len() {
        seq![s.subrange(i, s.len() as int)]
    } else {
        seq![s.subrange(i, p)] + split_slash_from(s, p + 1)
    }
}

#[via_fn]
proof fn split_slash_from_dec(s: Seq<u8>, i: int) {
    if 0 <= i <= s.len() {
        lemma_byte_pos(s, 47, i);
    }
}

/// The views of a part list.
pub open spec fn parts_view(p: Seq<Vec<u8>>) -> Seq<Seq<u8>> {
    p.map_values(|q: Vec<u8>| q@)
}

impl YmdWeeks {
    /// Seven weekday names, Sunday first: the first seven `/`-separated parts
    /// of the value, or nothing when the value has fewer than seven. A value
    /// that does not name all seven days is ignored whole.
    pub open spec fn spec_from_raw(raw: Seq<u8>) -> Option<Seq<Seq<u8>>> {
        let parts = split_slash_from(raw, 0);
        if parts.len() >= 7 {
            Some(parts.subrange(0, 7))
        } else {
            None
        }
    }

    pub fn from_raw(raw: &[u8]) -> (r: Option<Vec<Vec<u8>>>)
        ensures
            match r {
                Some(v) => YmdWeeks::spec_from_raw(raw@) == Some(parts_view(v@)) && v@.len() == 7,
                None => YmdWeeks::spec_from_raw(raw@) is None,
            },
    {
        let mut parts: Vec<Vec<u8>> = Vec::new();
        let mut pos: usize = 0;
        let mut done = false;
        proof {
            assert(parts_view(parts@) =~= Seq::<Seq<u8>>::empty());
            assert(split_slash_from(raw@, 0) =~= parts_view(parts@) + split_slash_from(raw@, 0));
        }
        while !done && parts.len() < 7
            invariant
                pos <= raw@.len(),
                parts@.len() <= 7,
                !done ==> split_slash_from(raw@, 0) == parts_view(parts@) + split_slash_from(
                    raw@,
                    pos as int,
                ),
                done ==> split_slash_from(raw@, 0) == parts_view(parts@),
            decreases raw@.len() - pos + if done {
                0int
            } else {
                1int
            },
        {
            let ghost pre = parts@;
            let p = find_byte(raw, 47, pos);
            proof {
                lemma_byte_pos(raw@, 47, pos as int);
            }
            if p >= raw.len() {
                parts.push(slice_to_vec(slice_subrange(raw, pos, raw.len())));
                done = true;
                proof {
                    assert(split_slash_from(raw@, pos as int) =~= seq![
                        raw@.subrange(pos as int, raw@.len() as int),
                    ]);
                    assert(parts_view(parts@) =~= parts_view(pre) + split_slash_from(
                        raw@,
                        pos as int,
                    ));
                }
            } else {
                parts.push(slice_to_vec(slice_subrange(raw, pos, p)));
                proof {
                    assert(split_slash_from(raw@, pos as int) == seq![
                        raw@.subrange(pos as int, p as int),
                    ] + split_slash_from(raw@, p + 1));
                    assert(parts_view(parts@) =~= parts_view(pre) + seq![
                        raw@.subrange(pos as int, p as int),
                    ]);
                    assert(parts_view(pre) + (seq![raw@.subrange(pos as int, p as int)]
                        + split_slash_from(raw@, p + 1)) =~= (parts_view(pre) + seq![
                        raw@.subrange(pos as int, p as int),
                    ]) + split_slash_from(raw@, p + 1));
                }
                pos = p + 1;
            }
        }
        if parts.len() == 7 {
            proof {
                if !done {
                    lemma_split_slash_len(raw@, pos as int);
                    assert(split_slash_from(raw@, 0).subrange(0, 7) =~= parts_view(parts@));
                } else {
                    assert(split_slash_from(raw@, 0).subrange(0, 7) =~= parts_view(parts@));
                }
            }
            Some(parts)
        } else {
            proof {
                assert(done);
                assert(split_slash_from(raw@, 0).len() < 7);
            }
            None
        }
    }
}

/// Splitting yields at least one part.
proof fn lemma_split_slash_len(s: Seq<u8>, i: int)
    requires
        0 <= i <= s.len(),
    ensures
        split_slash_from(s, i).len() >= 1,
    decreases s.len() - i,
{
    lemma_byte_pos(s, 47, i);
    let p = byte_pos(s, 47, i);
    if p < s.len() {
        lemma_split_slash_len(s, p + 1);
    }
}

} // verus!
