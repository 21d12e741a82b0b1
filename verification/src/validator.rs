//! Validated carriers for the values that arrive through form fields and
//! route segments: alphanumeric names, decimal keys, and HTML-escaped bytes
//! produced by percent-decoding followed by the legacy three-character
//! escape.

use vstd::prelude::*;
use vstd::slice::{slice_subrange, slice_to_vec};

use crate::decimal::{all_dec_digits, dec_digits, dec_value, parse_u64_dec, u64_to_dec};

verus! {

/// A byte is an ASCII letter or digit.
pub open spec fn spec_is_alphanum(c: u8) -> bool {
    (97 <= c <= 122) || (65 <= c <= 90) || spec_is_digit(c)
}

/// A byte is an ASCII digit.
pub open spec fn spec_is_digit(c: u8) -> bool {
    48 <= c <= 57
}

pub fn is_alphanum(c: u8) -> (r: bool)
    ensures
        r == spec_is_alphanum(c),
{
    (97 <= c && c <= 122) || (65 <= c && c <= 90) || is_digit(c)
}

pub fn is_digit(c: u8) -> (r: bool)
    ensures
        r == spec_is_digit(c),
{
    48 <= c && c <= 57
}

/// A non-empty ASCII alphanumeric name, as board ids are.
pub struct AlphaNum {
    pub value: Vec<u8>,
}

/// A decimal `u64`, kept with the raw digits it was parsed from (which may
/// carry leading zeros).
pub struct Digits {
    pub number: u64,
    pub raw: Vec<u8>,
}

/// A byte string after percent-decoding and the legacy HTML escape.
pub struct Escaped {
    pub value: Vec<u8>,
}

/// A `.dat` file name: a decimal number carrying the `.dat` suffix.
pub struct Dat(pub usize);

impl AlphaNum {
    pub open spec fn wf(&self) -> bool {
        self.value@.len() > 0 && forall|i: int|
            0 <= i < self.value@.len() ==> spec_is_alphanum(#[trigger] self.value@[i])
    }

    /// Accepts exactly the non-empty all-alphanumeric values.
    pub fn from_form_value(v: &[u8]) -> (r: Result<Self, ()>)
        ensures
            r is Ok <==> v@.len() > 0 && (forall|i: int|
                0 <= i < v@.len() ==> spec_is_alphanum(#[trigger] v@[i])),
            r matches Ok(a) ==> a.value@ == v@ && a.wf(),
    {
        if v.len() == 0 {
            return Err(());
        }
        let mut i: usize = 0;
        while i < v.len()
            invariant
                i <= v@.len(),
                forall|j: int| 0 <= j < i ==> spec_is_alphanum(#[trigger] v@[j]),
            decreases v@.len() - i,
        {
            if !is_alphanum(v[i]) {
                return Err(());
            }
            i += 1;
        }
        Ok(AlphaNum { value: slice_to_vec(v) })
    }

    pub fn as_str(&self) -> (r: &Vec<u8>)
        ensures
            r == &self.value,
    {
        &self.value
    }
}

impl Digits {
    pub open spec fn wf(&self) -> bool {
        all_dec_digits(self.raw@) && dec_value(self.raw@) == self.number
    }

    /// Accepts exactly the all-digit values whose number fits in a `u64`, and
    /// keeps the digits as they were sent.
    pub fn from_form_value(v: &[u8]) -> (r: Result<Self, ()>)
        ensures
            r is Ok <==> all_dec_digits(v@) && dec_value(v@) <= u64::MAX,
            r matches Ok(d) ==> d.raw@ == v@ && d.number == dec_value(v@) && d.wf(),
    {
        match parse_u64_dec(v) {
            Some(n) => Ok(Digits { number: n, raw: slice_to_vec(v) }),
            None => Err(()),
        }
    }

    /// The key of a topic the server itself created: the raw form is the
    /// canonical rendering of the number.
    pub fn from_number(n: u64) -> (r: Self)
        ensures
            r.number == n,
            r.raw@ == dec_digits(n as nat),
            r.wf(),
    {
        proof {
            crate::decimal::lemma_dec_digits_value(n as nat);
        }
        Digits { number: n, raw: u64_to_dec(n) }
    }

    pub fn as_str(&self) -> (r: &Vec<u8>)
        ensures
            r == &self.raw,
    {
        &self.raw
    }
}

/// The value of one hexadecimal digit, upper or lower case.
pub open spec fn hex_val(c: u8) -> Option<u8> {
    if 48 <= c <= 57 {
        Some((c - 48) as u8)
    } else if 65 <= c <= 70 {
        Some((c - 55) as u8)
    } else if 97 <= c <= 102 {
        Some((c - 87) as u8)
    } else {
        None
    }
}

fn hex_val_exec(c: u8) -> (r: Option<u8>)
    ensures
        r == hex_val(c),
{
    if 48 <= c && c <= 57 {
        Some(c - 48)
    } else if 65 <= c && c <= 70 {
        Some(c - 55)
    } else if 97 <= c && c <= 102 {
        Some(c - 87)
    } else {
        None
    }
}

/// Percent-decoding from byte `i` on: `%` followed by two hexadecimal digits
/// becomes the byte they denote; any other byte, a lone `%` included, passes
/// through.
pub open spec fn percent_decoded_from(s: Seq<u8>, i: int) -> Seq<u8>
    decreases s.len() - i
        when 0 <= i <= s.len()
{
    if i >= s.len() {
        Seq::empty()
    } else if s[i] == 37 && i + 2 < s.len() && hex_val(s[i + 1]) is Some && hex_val(
        s[i + 2],
    ) is Some {
        seq![(hex_val(s[i + 1]).unwrap() * 16 + hex_val(s[i + 2]).unwrap()) as u8]
            + percent_decoded_from(s, i + 3)
    } else {
        seq![s[i]] + percent_decoded_from(s, i + 1)
    }
}

pub open spec fn percent_decoded(s: Seq<u8>) -> Seq<u8> {
    percent_decoded_from(s, 0)
}

/// The legacy HTML escape of one byte: only `"`, `<` and `>` are rewritten,
/// exactly as the wire format expects; everything else passes through.
pub open spec fn esc_char(c: u8) -> Seq<u8> {
    if c == 34 {
        seq![38u8, 113u8, 117u8, 111u8, 116u8, 59u8]
    } else if c == 60 {
        seq![38u8, 108u8, 116u8, 59u8]
    } else if c == 62 {
        seq![38u8, 103u8, 116u8, 59u8]
    } else {
        seq![c]
    }
}

pub open spec fn html_escaped_from(s: Seq<u8>, i: int) -> Seq<u8>
    decreases s.len() - i
        when 0 <= i <= s.len()
{
    if i >= s.len() {
        Seq::empty()
    } else {
        esc_char(s[i]) + html_escaped_from(s, i + 1)
    }
}

pub open spec fn html_escaped(s: Seq<u8>) -> Seq<u8> {
    html_escaped_from(s, 0)
}

/// What an escaped form value holds: the input percent-decoded, then HTML
/// escaped.
pub open spec fn spec_escaped(s: Seq<u8>) -> Seq<u8> {
    html_escaped(percent_decoded(s))
}

/// Percent-decodes a byte string.
pub fn percent_decode(v: &[u8]) -> (r: Vec<u8>)
    ensures
        r@ == percent_decoded(v@),
{
    let mut out: Vec<u8> = Vec::new();
    let mut i: usize = 0;
    proof {
        assert(percent_decoded(v@) =~= out@ + percent_decoded_from(v@, 0));
    }
    while i < v.len()
        invariant
            i <= v@.len(),
            percent_decoded(v@) == out@ + percent_decoded_from(v@, i as int),
        decreases v@.len() - i,
    {
        let ghost pre = out@;
        if v[i] == 37 && v.len() - i > 2 {
            let h1 = hex_val_exec(v[i + 1]);
            let h2 = hex_val_exec(v[i + 2]);
            match (h1, h2) {
                (Some(a), Some(b)) => {
                    out.push(a * 16 + b);
                    proof {
                        assert(out@ =~= pre + seq![(hex_val(v@[i as int + 1]).unwrap() * 16
                            + hex_val(v@[i as int + 2]).unwrap()) as u8]);
                        assert(pre + (seq![(hex_val(v@[i as int + 1]).unwrap() * 16 + hex_val(
                            v@[i as int + 2],
                        ).unwrap()) as u8] + percent_decoded_from(v@, i + 3)) =~= out@
                            + percent_decoded_from(v@, i + 3));
                    }
                    i += 3;
                },
                _ => {
                    out.push(v[i]);
                    proof {
                        assert(out@ =~= pre + seq![v@[i as int]]);
                        assert(pre + (seq![v@[i as int]] + percent_decoded_from(v@, i + 1)) =~= out@
                            + percent_decoded_from(v@, i + 1));
                    }
                    i += 1;
                },
            }
        } else {
            out.push(v[i]);
            proof {
                assert(out@ =~= pre + seq![v@[i as int]]);
                assert(pre + (seq![v@[i as int]] + percent_decoded_from(v@, i + 1)) =~= out@
                    + percent_decoded_from(v@, i + 1));
            }
            i += 1;
        }
    }
    proof {
        assert(percent_decoded_from(v@, v@.len() as int) =~= Seq::<u8>::empty());
        assert(out@ =~= percent_decoded(v@));
    }
    out
}

/// Applies the legacy HTML escape to a byte string.
pub fn html_escape(v: &[u8]) -> (r: Vec<u8>)
    ensures
        r@ == html_escaped(v@),
{
    let mut out: Vec<u8> = Vec::new();
    let mut i: usize = 0;
    proof {
        assert(html_escaped(v@) =~= out@ + html_escaped_from(v@, 0));
    }
    while i < v.len()
        invariant
            i <= v@.len(),
            html_escaped(v@) == out@ + html_escaped_from(v@, i as int),
        decreases v@.len() - i,
    {
        let ghost pre = out@;
        let c = v[i];
        if c == 34 {
            out.push(38);
            out.push(113);
            out.push(117);
            out.push(111);
            out.push(116);
            out.push(59);
        } else if c == 60 {
            out.push(38);
            out.push(108);
            out.push(116);
            out.push(59);
        } else if c == 62 {
            out.push(38);
            out.push(103);
            out.push(116);
            out.push(59);
        } else {
            out.push(c);
        }
        proof {
            assert(out@ =~= pre + esc_char(v@[i as int]));
            assert(pre + (esc_char(v@[i as int]) + html_escaped_from(v@, i + 1)) =~= out@
                + html_escaped_from(v@, i + 1));
        }
        i += 1;
    }
    proof {
        assert(html_escaped_from(v@, v@.len() as int) =~= Seq::<u8>::empty());
        assert(out@ =~= html_escaped(v@));
    }
    out
}

impl Escaped {
    /// Never rejects: every raw form value has an escaped reading.
    pub fn from_form_value(v: &[u8]) -> (r: Self)
        ensures
            r.value@ == spec_escaped(v@),
    {
        let decoded = percent_decode(v);
        Escaped { value: html_escape(decoded.as_slice()) }
    }

    pub fn as_bytes(&self) -> (r: &Vec<u8>)
        ensures
            r == &self.value,
    {
        &self.value
    }
}

impl Dat {
    /// Accepts `{digits}.dat` where the digits fit in a `usize`.
    pub fn from_param(v: &[u8]) -> (r: Result<Self, ()>)
        ensures
            r is Ok <==> v@.len() >= 4 && v@.subrange(v@.len() - 4, v@.len() as int) == seq![
                46u8,
                100u8,
                97u8,
                116u8,
            ] && all_dec_digits(v@.subrange(0, v@.len() - 4)) && dec_value(
                v@.subrange(0, v@.len() - 4),
            ) <= usize::MAX,
            r matches Ok(d) ==> d.0 == dec_value(v@.subrange(0, v@.len() - 4)),
    {
        if v.len() < 4 {
            return Err(());
        }
        let n = v.len();
        if !(v[n - 4] == 46 && v[n - 3] == 100 && v[n - 2] == 97 && v[n - 1] == 116) {
            proof {
                assert(v@.subrange(v@.len() - 4, v@.len() as int) != seq![46u8, 100u8, 97u8, 116u8])
                    by {
                    assert(v@.subrange(v@.len() - 4, v@.len() as int)[0] == v@[v@.len() - 4]);
                    assert(v@.subrange(v@.len() - 4, v@.len() as int)[1] == v@[v@.len() - 3]);
                    assert(v@.subrange(v@.len() - 4, v@.len() as int)[2] == v@[v@.len() - 2]);
                    assert(v@.subrange(v@.len() - 4, v@.len() as int)[3] == v@[v@.len() - 1]);
                };
            }
            return Err(());
        }
        proof {
            assert(v@.subrange(v@.len() - 4, v@.len() as int) =~= seq![46u8, 100u8, 97u8, 116u8]);
        }
        let stem = slice_subrange(v, 0, n - 4);
        match parse_u64_dec(stem) {
            Some(k) => {
                if k <= usize::MAX as u64 {
                    Ok(Dat(k as usize))
                } else {
                    Err(())
                }
            },
            None => Err(()),
        }
    }
}

} // verus!
