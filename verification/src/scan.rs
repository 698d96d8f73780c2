//! Finding the leftmost marker of a text.
//!
//! The search runs over the bytes of the text. What it finds is stated over
//! the characters.

use crate::marker::{
    lemma_marker_at_is, lemma_marker_shape, lemma_next_marker_is, marker_at, next_marker, Marker,
};
use crate::text::{
    byte_offset, lemma_boundary_around_ascii, lemma_byte_offset_increases, lemma_encode_injective,
    lemma_occurrence_in_bytes, occurs_at, split_text,
};
use vstd::prelude::*;
use vstd::string::*;
use vstd::utf8::*;

verus! {

/// The marker whose bytes start at index `i` of `bytes`, if one does.
pub open spec fn byte_marker_at(bytes: Seq<u8>, i: int) -> Option<Marker> {
    if occurs_at(bytes, i, encode_utf8(Marker::OpenSecure.text())) {
        Some(Marker::OpenSecure)
    } else if occurs_at(bytes, i, encode_utf8(Marker::CloseSecure.text())) {
        Some(Marker::CloseSecure)
    } else if occurs_at(bytes, i, encode_utf8(Marker::OpenCipher.text())) {
        Some(Marker::OpenCipher)
    } else if occurs_at(bytes, i, encode_utf8(Marker::CloseCipher.text())) {
        Some(Marker::CloseCipher)
    } else {
        None
    }
}

/// A marker among the characters of a text is a marker among its bytes.
pub proof fn lemma_marker_in_bytes(t: Seq<char>, j: int)
    requires
        marker_at(t, j) is Some,
    ensures
        byte_marker_at(encode_utf8(t), byte_offset(t, j)) is Some,
{
    lemma_occurrence_in_bytes(t, j, marker_at(t, j)->Some_0.text());
}

/// The bytes of a marker are ASCII, as many as it has characters.
pub proof fn lemma_marker_bytes(m: Marker)
    ensures
        encode_utf8(m.text()).len() == m.text().len(),
        forall|k: int|
            0 <= k < m.text().len() ==> (#[trigger] encode_utf8(m.text())[k]) <= 0x7f,
{
    lemma_marker_shape(m);
    is_ascii_chars_encode_utf8(m.text());
    assert forall|k: int| 0 <= k < m.text().len() implies (#[trigger] encode_utf8(
        m.text(),
    )[k]) <= 0x7f by {
        assert(m.text()[k] as u8 == encode_utf8(m.text())[k]);
    }
}

/// Whether `pat` stands in `bytes` at index `i`.
pub fn starts_at(bytes: &[u8], i: usize, pat: &[u8]) -> (r: bool)
    ensures
        r == occurs_at(bytes@, i as int, pat@),
{
    let n = bytes.len();
    let k = pat.len();
    if i > n || k > n - i {
        return false;
    }
    let mut j: usize = 0;
    while j < k
        invariant
            j <= k,
            k == pat@.len(),
            n == bytes@.len(),
            i + k <= n,
            forall|x: int| 0 <= x < j ==> bytes@[i + x] == pat@[x],
        decreases k - j,
    {
        if bytes[i + j] != pat[j] {
            assert(bytes@.subrange(i as int, i + k)[j as int] == bytes@[i + j]);
            return false;
        }
        j += 1;
    }
    assert(bytes@.subrange(i as int, i + k) =~= pat@);
    true
}

/// The marker whose bytes start at index `i` of `bytes`, if one does.
pub fn marker_here(bytes: &[u8], i: usize) -> (r: Option<Marker>)
    ensures
        r == byte_marker_at(bytes@, i as int),
{
    if starts_at(bytes, i, Marker::OpenSecure.as_str().as_bytes()) {
        Some(Marker::OpenSecure)
    } else if starts_at(bytes, i, Marker::CloseSecure.as_str().as_bytes()) {
        Some(Marker::CloseSecure)
    } else if starts_at(bytes, i, Marker::OpenCipher.as_str().as_bytes()) {
        Some(Marker::OpenCipher)
    } else if starts_at(bytes, i, Marker::CloseCipher.as_str().as_bytes()) {
        Some(Marker::CloseCipher)
    } else {
        None
    }
}

/// Finds the leftmost marker of `text`.
///
/// Returns the text before the marker, the marker, and the text after it,
/// or `None` where `text` holds no marker.
pub fn find_marker<'a>(text: &'a str) -> (r: Option<(&'a str, Marker, &'a str)>)
    ensures
        match r {
            Some((before, m, after)) => {
                &&& text@ == before@ + m.text() + after@
                &&& next_marker(text@, 0) == before@.len()
                &&& marker_at(text@, before@.len() as int) == Some(m)
            },
            None => next_marker(text@, 0) == text@.len(),
        },
{
    let bytes = text.as_bytes();
    let n = bytes.len();
    let mut i: usize = 0;
    while i < n
        invariant
            i <= n,
            n == bytes@.len(),
            bytes@ == encode_utf8(text@),
            forall|k: int| 0 <= k < i ==> (#[trigger] byte_marker_at(bytes@, k)) is None,
        decreases n - i,
    {
        if let Some(m) = marker_here(bytes, i) {
            let len = m.as_str().len();
            proof {
                lemma_marker_bytes(m);
                lemma_marker_shape(m);
                encode_utf8_valid_utf8(text@);
                assert(bytes@[i as int] == bytes@.subrange(i as int, i + len)[0]);
                lemma_boundary_around_ascii(bytes@, i as int);
            }
            let (before, tail) = split_text(text, i);
            proof {
                encode_utf8_valid_utf8(tail@);
                assert(tail.spec_bytes()[len - 1] == bytes@.subrange(i as int, i + len)[len - 1]);
                lemma_boundary_around_ascii(tail.spec_bytes(), len - 1);
            }
            let (mark, after) = split_text(tail, len);
            proof {
                let t = text@;
                let at = before@.len() as int;
                assert(mark.spec_bytes() =~= bytes@.subrange(i as int, i + len));
                lemma_encode_injective(mark@, m.text());
                assert(t =~= before@ + m.text() + after@);
                assert(t.subrange(0, at) =~= before@);
                assert(t.subrange(at, at + m.text().len()) =~= m.text());
                assert(byte_offset(t, at) == i);
                assert forall|j: int| 0 <= j < at implies (#[trigger] marker_at(t, j)) is None by {
                    if marker_at(t, j) is Some {
                        lemma_marker_in_bytes(t, j);
                        lemma_byte_offset_increases(t, j, at);
                    }
                }
                lemma_marker_at_is(t, at, m);
                lemma_next_marker_is(t, 0, at);
            }
            return Some((before, m, after));
        }
        i += 1;
    }
    proof {
        let t = text@;
        assert forall|j: int| 0 <= j < t.len() implies (#[trigger] marker_at(t, j)) is None by {
            if marker_at(t, j) is Some {
                lemma_marker_in_bytes(t, j);
                let found = byte_marker_at(bytes@, byte_offset(t, j))->Some_0;
                lemma_marker_bytes(found);
                lemma_marker_shape(found);
            }
        }
        lemma_next_marker_is(t, 0, t.len() as int);
    }
    None
}

} // verus!
