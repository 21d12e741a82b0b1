//! Small byte-buffer helpers shared by the artifact generators.

use vstd::prelude::*;

verus! {

/// Appends a byte slice to a buffer.
pub fn push_bytes(out: &mut Vec<u8>, s: &[u8])
    ensures
        final(out)@ == old(out)@ + s@,
{
    proof {
        assert(out@ =~= old(out)@ + s@.subrange(0, 0));
    }
    let mut i: usize = 0;
    while i < s.len()
        invariant
            i <= s.len(),
            out@ == old(out)@ + s@.subrange(0, i as int),
        decreases s.len() - i,
    {
        out.push(s[i]);
        proof {
            assert(out@ =~= old(out)@ + s@.subrange(0, i + 1));
        }
        i += 1;
    }
    proof {
        assert(s@.subrange(0, s@.len() as int) =~= s@);
    }
}

/// A fresh buffer with the same bytes.
pub fn clone_bytes(v: &Vec<u8>) -> (r: Vec<u8>)
    ensures
        r@ == v@,
{
    vstd::slice::slice_to_vec(v.as_slice())
}

/// Byte-for-byte equality of two slices.
pub fn bytes_eq(a: &[u8], b: &[u8]) -> (r: bool)
    ensures
        r == (a@ == b@),
{
    if a.len() != b.len() {
        return false;
    }
    let mut i: usize = 0;
    while i < a.len()
        invariant
            i <= a.len(),
            a@.len() == b@.len(),
            forall|j: int| 0 <= j < i ==> a@[j] == b@[j],
        decreases a.len() - i,
    {
        if a[i] != b[i] {
            return false;
        }
        i += 1;
    }
    proof {
        assert(a@ =~= b@);
    }
    true
}

/// Index of the first occurrence of `b` at or after `i`, or the length of the
/// sequence if there is none.
pub open spec fn byte_pos(s: Seq<u8>, b: u8, i: int) -> int
    decreases s.len() - i
        when 0 <= i <= s.len()
{
    if i >= s.len() {
        s.len() as int
    } else if s[i] == b {
        i
    } else {
        byte_pos(s, b, i + 1)
    }
}

pub proof fn lemma_byte_pos(s: Seq<u8>, b: u8, i: int)
    requires
        0 <= i <= s.len(),
    ensures
        i <= byte_pos(s, b, i) <= s.len(),
        byte_pos(s, b, i) < s.len() ==> s[byte_pos(s, b, i)] == b,
        forall|k: int| i <= k < byte_pos(s, b, i) ==> s[k] != b,
    decreases s.len() - i,
{
    if i < s.len() && s[i] != b {
        lemma_byte_pos(s, b, i + 1);
    }
}

/// The first occurrence of `b` at or after `from`, or the slice length.
/// Searches through `memchr`.
pub fn find_byte(s: &[u8], b: u8, from: usize) -> (r: usize)
    requires
        from <= s@.len(),
    ensures
        r == byte_pos(s@, b, from as int),
{
    proof {
        lemma_byte_pos(s@, b, from as int);
    }
    let tail = vstd::slice::slice_subrange(s, from, s.len());
    match memchr::memchr(b, tail) {
        Some(k) => {
            proof {
                assert(s@[from + k] == b);
                assert forall|j: int| from <= j < from + k implies s@[j] != b by {
                    assert(tail@[j - from] != b);
                }
                assert(byte_pos(s@, b, from as int) == from + k);
            }
            from + k
        },
        None => {
            proof {
                assert forall|j: int| from <= j < s@.len() implies s@[j] != b by {
                    assert(tail@[j - from] != b);
                }
            }
            s.len()
        },
    }
}

} // verus!
