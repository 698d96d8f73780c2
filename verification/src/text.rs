//! Texts and their UTF-8 bytes.
//!
//! Contracts speak of a text as its sequence of characters. The code works
//! on the bytes of the text, where an index costs nothing to reach. The
//! lemmas here carry facts from one side to the other.

use vstd::prelude::*;
use vstd::string::*;
use vstd::utf8::*;

verus! {

/// `pat` stands in `t` at index `i`.
pub open spec fn occurs_at<T>(t: Seq<T>, i: int, pat: Seq<T>) -> bool {
    &&& 0 <= i
    &&& i + pat.len() <= t.len()
    &&& t.subrange(i, i + pat.len()) == pat
}

/// The bytes of a concatenation are the bytes of its parts, in order.
pub proof fn lemma_encode_concat(a: Seq<char>, b: Seq<char>)
    ensures
        encode_utf8(a + b) == encode_utf8(a) + encode_utf8(b),
    decreases a.len(),
{
    if a.len() == 0 {
        assert(a + b =~= b);
        assert(encode_utf8(a) + encode_utf8(b) =~= encode_utf8(b));
    } else {
        assert((a + b).drop_first() =~= a.drop_first() + b);
        lemma_encode_concat(a.drop_first(), b);
        assert(encode_utf8(a + b) =~= encode_utf8(a) + encode_utf8(b));
    }
}

/// Two texts with the same bytes are the same text.
pub proof fn lemma_encode_injective(a: Seq<char>, b: Seq<char>)
    requires
        encode_utf8(a) == encode_utf8(b),
    ensures
        a == b,
{
    encode_utf8_decode_utf8(a);
    encode_utf8_decode_utf8(b);
}

/// Every character takes at least one byte.
pub proof fn lemma_encode_len(a: Seq<char>)
    ensures
        encode_utf8(a).len() >= a.len(),
    decreases a.len(),
{
    if a.len() > 0 {
        lemma_encode_len(a.drop_first());
    }
}

/// The byte offset at which the character with index `i` of `t` starts.
pub open spec fn byte_offset(t: Seq<char>, i: int) -> int {
    encode_utf8(t.subrange(0, i)).len() as int
}

/// A later character starts at a later byte.
pub proof fn lemma_byte_offset_increases(t: Seq<char>, i: int, j: int)
    requires
        0 <= i < j <= t.len(),
    ensures
        byte_offset(t, i) < byte_offset(t, j),
{
    let head = t.subrange(0, i);
    let mid = t.subrange(i, j);
    assert(t.subrange(0, j) =~= head + mid);
    lemma_encode_concat(head, mid);
    lemma_encode_len(mid);
}

/// Where a pattern stands among the characters of a text, its bytes stand
/// among the bytes of the text, at the byte offset of that character.
pub proof fn lemma_occurrence_in_bytes(t: Seq<char>, i: int, pat: Seq<char>)
    requires
        occurs_at(t, i, pat),
    ensures
        occurs_at(encode_utf8(t), byte_offset(t, i), encode_utf8(pat)),
{
    let head = t.subrange(0, i);
    let tail = t.subrange(i + pat.len(), t.len() as int);
    assert(t =~= head + pat + tail);
    lemma_encode_concat(head + pat, tail);
    lemma_encode_concat(head, pat);
    let bytes = encode_utf8(t);
    let at = byte_offset(t, i);
    assert(bytes.subrange(at, at + encode_utf8(pat).len()) =~= encode_utf8(pat));
}

/// In well-formed UTF-8 a character starts at an ASCII byte, and another
/// one, or the end of the text, follows it.
pub proof fn lemma_boundary_around_ascii(bytes: Seq<u8>, i: int)
    requires
        valid_utf8(bytes),
        0 <= i < bytes.len(),
        bytes[i] <= 0x7f,
    ensures
        is_char_boundary(bytes, i),
        is_char_boundary(bytes, i + 1),
{
    is_char_boundary_iff_not_is_continuation_byte(bytes, i);
    valid_utf8_split(bytes, i);
    let from_i = bytes.subrange(i, bytes.len() as int);
    assert(from_i[0] == bytes[i]);
    assert(valid_first_scalar(from_i));
    assert(length_of_first_scalar(from_i) == 1);
    let after = bytes.subrange(i + 1, bytes.len() as int);
    assert(pop_first_scalar(from_i) =~= after);
    assert(valid_utf8(after));
    if i + 1 == bytes.len() {
        is_char_boundary_start_end_of_seq(bytes);
    } else {
        assert(after[0] == bytes[i + 1]);
        assert(valid_first_scalar(after));
        is_char_boundary_iff_not_is_continuation_byte(bytes, i + 1);
    }
}

/// Cuts a text in two at a byte offset where a character starts.
pub fn split_text<'a>(s: &'a str, mid: usize) -> (r: (&'a str, &'a str))
    requires
        is_char_boundary(s.spec_bytes(), mid as int),
    ensures
        s@ == r.0@ + r.1@,
        r.0.spec_bytes() == s.spec_bytes().subrange(0, mid as int),
        r.1.spec_bytes() == s.spec_bytes().subrange(mid as int, s.spec_bytes().len() as int),
{
    let r = s.split_at(mid);
    proof {
        let bytes = s.spec_bytes();
        encode_utf8_valid_utf8(s@);
        assert(bytes =~= bytes.subrange(0, mid as int) + bytes.subrange(
            mid as int,
            bytes.len() as int,
        ));
        lemma_encode_concat(r.0@, r.1@);
        lemma_encode_injective(s@, r.0@ + r.1@);
    }
    r
}

/// Whether two texts are the same.
pub fn same_text(a: &str, b: &str) -> (r: bool)
    ensures
        r == (a@ == b@),
{
    let x = a.as_bytes();
    let y = b.as_bytes();
    if x.len() != y.len() {
        return false;
    }
    let mut i: usize = 0;
    while i < x.len()
        invariant
            i <= x@.len(),
            x@.len() == y@.len(),
            x@ == a.spec_bytes(),
            y@ == b.spec_bytes(),
            x@.subrange(0, i as int) == y@.subrange(0, i as int),
        decreases x@.len() - i,
    {
        if x[i] != y[i] {
            return false;
        }
        assert(x@.subrange(0, i + 1) =~= x@.subrange(0, i as int).push(x@[i as int]));
        assert(y@.subrange(0, i + 1) =~= y@.subrange(0, i as int).push(y@[i as int]));
        i += 1;
    }
    proof {
        assert(x@ =~= x@.subrange(0, i as int));
        assert(y@ =~= y@.subrange(0, i as int));
        lemma_encode_injective(a@, b@);
    }
    true
}

} // verus!
