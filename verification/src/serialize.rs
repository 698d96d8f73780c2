//! From document to text: with the markers, and without them.

use crate::error::{AppError, ErrorView};
use crate::marker::Marker;
use crate::segment::{document, item_at, segment_count, Segment, SegmentView, Segments};
use crate::transform::has_cipher;
use vstd::prelude::*;
use vstd::string::*;

verus! {

/// The text of one segment in the stored form of a document: unmarked text
/// as it is, the content of a tagged span between its two markers.
pub open spec fn segment_text(segment: SegmentView) -> Seq<char> {
    match segment {
        SegmentView::Text(text) => text,
        SegmentView::Secure(plain) => Marker::OpenSecure.text() + plain
            + Marker::CloseSecure.text(),
        SegmentView::Cipher(cipher) => Marker::OpenCipher.text() + cipher
            + Marker::CloseCipher.text(),
    }
}

/// The stored form of a document: the texts of its segments, in order.
pub open spec fn combined(d: Seq<SegmentView>) -> Seq<char>
    decreases d.len(),
{
    if d.len() == 0 {
        seq![]
    } else {
        segment_text(d[0]) + combined(d.drop_first())
    }
}

/// The readable form of a document: the contents of its segments, in
/// order, without any marker.
pub open spec fn expanded(d: Seq<SegmentView>) -> Seq<char>
    decreases d.len(),
{
    if d.len() == 0 {
        seq![]
    } else {
        d[0].content() + expanded(d.drop_first())
    }
}

/// The error of [`expand`] for a document that still holds ciphertext.
pub open spec fn unexpected_cipher() -> ErrorView {
    ErrorView { context: "expand"@, detail: "Encountered Cipher segment during expansion:"@ }
}

/// The stored form of a document with one more segment is the stored form
/// of the document, followed by the text of the segment.
pub proof fn lemma_combined_push(d: Seq<SegmentView>, segment: SegmentView)
    ensures
        combined(d.push(segment)) == combined(d) + segment_text(segment),
    decreases d.len(),
{
    if d.len() == 0 {
        assert(d.push(segment).drop_first() =~= d);
        assert(combined(d.push(segment)) =~= combined(d) + segment_text(segment));
    } else {
        assert(d.push(segment).drop_first() =~= d.drop_first().push(segment));
        lemma_combined_push(d.drop_first(), segment);
        assert(combined(d.push(segment)) =~= combined(d) + segment_text(segment));
    }
}

/// The readable form of a document with one more segment is the readable
/// form of the document, followed by the content of the segment.
pub proof fn lemma_expanded_push(d: Seq<SegmentView>, segment: SegmentView)
    ensures
        expanded(d.push(segment)) == expanded(d) + segment.content(),
    decreases d.len(),
{
    if d.len() == 0 {
        assert(d.push(segment).drop_first() =~= d);
        assert(expanded(d.push(segment)) =~= expanded(d) + segment.content());
    } else {
        assert(d.push(segment).drop_first() =~= d.drop_first().push(segment));
        lemma_expanded_push(d.drop_first(), segment);
        assert(expanded(d.push(segment)) =~= expanded(d) + segment.content());
    }
}

/// Writes a document as readable text: the contents of its segments, in
/// order, without markers.
///
/// The document must hold no ciphertext: decrypt it first. One that does
/// is refused.
pub fn expand(segments: Segments) -> (r: Result<String, AppError>)
    ensures
        match r {
            Ok(text) => !has_cipher(document(segments)) && text@ == expanded(document(segments)),
            Err(e) => has_cipher(document(segments)) && e@ == unexpected_cipher(),
        },
{
    let ghost d = document(segments);
    let count = segment_count(&segments);
    let mut answer = String::new();
    let mut index: usize = 0;
    while index < count
        invariant
            index <= count,
            count == d.len(),
            d == document(segments),
            answer@ == expanded(d.take(index as int)),
            forall|i: int| 0 <= i < index ==> !((#[trigger] d[i]) is Cipher),
        decreases count - index,
    {
        proof {
            assert(d.take(index + 1) =~= d.take(index as int).push(d[index as int]));
            lemma_expanded_push(d.take(index as int), d[index as int]);
        }
        match &**item_at(&segments, index) {
            Segment::Text(text) => {
                answer.append(text.as_str());
            },
            Segment::Secure(plain) => {
                answer.append(plain.as_str());
            },
            Segment::Cipher(_) => {
                assert(d[index as int] is Cipher);
                return Err(
                    AppError::from_str("expand", "Encountered Cipher segment during expansion:"),
                );
            },
        }
        index += 1;
    }
    assert(d.take(index as int) =~= d);
    Ok(answer)
}

/// Writes a document in its stored form: unmarked text as it is, and the
/// content of every tagged span between the markers of its kind.
pub fn combine(segments: Segments) -> (r: Result<String, AppError>)
    ensures
        r is Ok,
        r->Ok_0@ == combined(document(segments)),
{
    let ghost d = document(segments);
    let count = segment_count(&segments);
    let mut answer = String::new();
    let mut index: usize = 0;
    while index < count
        invariant
            index <= count,
            count == d.len(),
            d == document(segments),
            answer@ == combined(d.take(index as int)),
        decreases count - index,
    {
        proof {
            assert(d.take(index + 1) =~= d.take(index as int).push(d[index as int]));
            lemma_combined_push(d.take(index as int), d[index as int]);
        }
        let ghost before = answer@;
        match &**item_at(&segments, index) {
            Segment::Text(text) => {
                answer.append(text.as_str());
            },
            Segment::Secure(plain) => {
                answer.append(Marker::OpenSecure.as_str());
                answer.append(plain.as_str());
                answer.append(Marker::CloseSecure.as_str());
            },
            Segment::Cipher(cipher) => {
                answer.append(Marker::OpenCipher.as_str());
                answer.append(cipher.as_str());
                answer.append(Marker::CloseCipher.as_str());
            },
        }
        assert(answer@ =~= before + segment_text(d[index as int]));
        index += 1;
    }
    assert(d.take(index as int) =~= d);
    Ok(answer)
}

} // verus!
