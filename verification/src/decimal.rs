//! Decimal ASCII rendering and parsing of unsigned numbers, used by the
//! `subject.txt` generator, the `.dat` file names and the form validators.

use vstd::prelude::*;

verus! {

/// The decimal ASCII digits of `n`, most significant first, no sign and no
/// leading zero (a single `'0'` for zero).
pub open spec fn dec_digits(n: nat) -> Seq<u8>
    decreases n,
{
    if n < 10 {
        seq![(48 + n) as u8]
    } else {
        dec_digits(n / 10) + seq![(48 + n % 10) as u8]
    }
}

/// Every byte is an ASCII digit and there is at least one.
pub open spec fn all_dec_digits(s: Seq<u8>) -> bool {
    s.len() > 0 && (forall|i: int| 0 <= i < s.len() ==> 48 <= #[trigger] s[i] <= 57)
}

/// The number a digit string denotes, most significant digit first.
pub open spec fn dec_value(s: Seq<u8>) -> nat
    decreases s.len(),
{
    if s.len() == 0 {
        0
    } else {
        dec_value(s.drop_last()) * 10 + (s.last() - 48) as nat
    }
}

/// Rendering a number and reading the digits back gives the number, and the
/// rendering consists of digits only.
pub proof fn lemma_dec_digits_value(n: nat)
    ensures
        all_dec_digits(dec_digits(n)),
        dec_value(dec_digits(n)) == n,
    decreases n,
{
    if n < 10 {
        assert(dec_digits(n).drop_last() =~= Seq::<u8>::empty());
        assert(dec_digits(n).last() == (48 + n) as u8);
        assert(dec_value(dec_digits(n)) == dec_value(Seq::<u8>::empty()) * 10 + ((48 + n) as u8
            - 48) as nat);
        assert(dec_value(dec_digits(n)) == n);
    } else {
        lemma_dec_digits_value(n / 10);
        assert(dec_digits(n).drop_last() =~= dec_digits(n / 10));
        assert(dec_digits(n).last() == (48 + n % 10) as u8);
        assert(dec_value(dec_digits(n)) == (n / 10) * 10 + n % 10);
        assert((n / 10) * 10 + n % 10 == n) by (nonlinear_arith);
    }
}

/// A digit string denotes at least what any of its prefixes denotes.
pub proof fn lemma_dec_value_prefix(s: Seq<u8>, j: int)
    requires
        0 <= j <= s.len(),
        forall|i: int| 0 <= i < s.len() ==> 48 <= #[trigger] s[i] <= 57,
    ensures
        dec_value(s.subrange(0, j)) <= dec_value(s),
    decreases s.len() - j,
{
    if j == s.len() {
        assert(s.subrange(0, j) =~= s);
    } else {
        lemma_dec_value_prefix(s, j + 1);
        assert(s.subrange(0, j + 1).drop_last() =~= s.subrange(0, j));
        assert(dec_value(s.subrange(0, j + 1)) == dec_value(s.subrange(0, j)) * 10 + (s[j] - 48));
        assert(dec_value(s.subrange(0, j)) <= dec_value(s.subrange(0, j)) * 10) by (nonlinear_arith);
    }
}

/// Appends the decimal digits of `n` to a byte buffer.
pub fn push_u64_dec(out: &mut Vec<u8>, n: u64)
    ensures
        final(out)@ == old(out)@ + dec_digits(n as nat),
    decreases n,
{
    if n < 10 {
        out.push((48 + n) as u8);
        proof {
            assert(out@ =~= old(out)@ + dec_digits(n as nat));
        }
    } else {
        push_u64_dec(out, n / 10);
        out.push((48 + (n % 10)) as u8);
        proof {
            assert(out@ =~= old(out)@ + dec_digits(n as nat));
        }
    }
}

/// The decimal digits of `n` as a fresh buffer.
pub fn u64_to_dec(n: u64) -> (r: Vec<u8>)
    ensures
        r@ == dec_digits(n as nat),
{
    let mut out: Vec<u8> = Vec::new();
    push_u64_dec(&mut out, n);
    proof {
        assert(out@ =~= dec_digits(n as nat));
    }
    out
}

/// Reads an unsigned decimal number: accepts exactly the non-empty strings of
/// ASCII digits whose value fits in a `u64`.
pub fn parse_u64_dec(s: &[u8]) -> (r: Option<u64>)
    ensures
        r is Some <==> all_dec_digits(s@) && dec_value(s@) <= u64::MAX,
        r is Some ==> r == Some(dec_value(s@) as u64),
{
    if s.len() == 0 {
        return None;
    }
    let mut acc: u64 = 0;
    let mut i: usize = 0;
    while i < s.len()
        invariant
            i <= s.len(),
            forall|j: int| 0 <= j < i ==> 48 <= #[trigger] s@[j] <= 57,
            acc == dec_value(s@.subrange(0, i as int)),
        decreases s.len() - i,
    {
        let c = s[i];
        if c < 48 || c > 57 {
            return None;
        }
        let d: u64 = (c - 48) as u64;
        let next = match acc.checked_mul(10) {
            Some(m) => m.checked_add(d),
            None => None,
        };
        proof {
            assert(s@.subrange(0, i + 1).drop_last() =~= s@.subrange(0, i as int));
        }
        match next {
            Some(v) => {
                acc = v;
            },
            None => {
                proof {
                    if forall|j: int| 0 <= j < s@.len() ==> 48 <= #[trigger] s@[j] <= 57 {
                        lemma_dec_value_prefix(s@, i + 1);
                        assert(dec_value(s@.subrange(0, i + 1)) == acc * 10 + d);
                    }
                }
                return None;
            },
        }
        i += 1;
    }
    proof {
        assert(s@.subrange(0, s@.len() as int) =~= s@);
    }
    Some(acc)
}

} // verus!
