//! Segments, and the document as an ordered sequence of them.

use crate::marker::SpanKind;
use im::Vector;
use std::rc::Rc;
use vstd::prelude::*;

verus! {

/// One typed unit of a document.
#[derive(Clone, Debug, PartialEq)]
pub enum Segment {
    /// Plaintext that must be protected before it is stored.
    Secure(String),
    /// Ciphertext that an encryption system produced.
    Cipher(String),
    /// Literal text that was never marked.
    Text(String),
}

/// The model of a [`Segment`]: its kind and its content as characters.
pub enum SegmentView {
    Secure(Seq<char>),
    Cipher(Seq<char>),
    Text(Seq<char>),
}

impl SegmentView {
    /// The text that the segment holds.
    pub open spec fn content(self) -> Seq<char> {
        match self {
            SegmentView::Secure(s) => s,
            SegmentView::Cipher(s) => s,
            SegmentView::Text(s) => s,
        }
    }

    /// The kind of the span that the segment stands for, and `None` for
    /// unmarked text.
    pub open spec fn span(self) -> Option<SpanKind> {
        match self {
            SegmentView::Secure(_) => Some(SpanKind::Secure),
            SegmentView::Cipher(_) => Some(SpanKind::Cipher),
            SegmentView::Text(_) => None,
        }
    }

    /// The segment of a tagged span of the given kind.
    pub open spec fn tagged(kind: SpanKind, content: Seq<char>) -> SegmentView {
        match kind {
            SpanKind::Secure => SegmentView::Secure(content),
            SpanKind::Cipher => SegmentView::Cipher(content),
        }
    }
}

impl View for Segment {
    type V = SegmentView;

    open spec fn view(&self) -> SegmentView {
        match self {
            Segment::Secure(s) => SegmentView::Secure(s@),
            Segment::Cipher(s) => SegmentView::Cipher(s@),
            Segment::Text(s) => SegmentView::Text(s@),
        }
    }
}

/// `im::Vector`, the persistent vector: a type whose inside is not looked
/// into. What it holds is known by [`document`] alone.
#[verifier::external_type_specification]
#[verifier::external_body]
#[verifier::reject_recursive_types(A)]
pub struct ExVector<A>(Vector<A>);

/// A document: segments in the order in which their text stands. Segments
/// are shared between a document and what a transform makes of it.
pub type Segments = Vector<Rc<Segment>>;

/// The segments that a document holds, in order.
pub uninterp spec fn document(segments: Vector<Rc<Segment>>) -> Seq<SegmentView>;

/// `im::Vector::new`: a vector that holds nothing.
#[verifier::external_body]
pub(crate) fn new_segments() -> (segments: Segments)
    ensures
        document(segments) == Seq::<SegmentView>::empty(),
{
    Vector::new()
}

/// `im::Vector::push_back`: the vector holds what it held, and after it
/// the given item.
#[verifier::external_body]
pub(crate) fn push_segment(segments: &mut Segments, segment: Rc<Segment>)
    ensures
        document(*final(segments)) == document(*old(segments)).push((*segment)@),
{
    segments.push_back(segment)
}

/// `im::Vector::len`: the number of items.
#[verifier::external_body]
pub(crate) fn segment_count(segments: &Segments) -> (n: usize)
    ensures
        n == document(*segments).len(),
{
    segments.len()
}

/// Indexing an `im::Vector`: the item at `index`. It panics where `index`
/// is not below the length.
#[verifier::external_body]
pub(crate) fn item_at(segments: &Segments, index: usize) -> (segment: &Rc<Segment>)
    requires
        index < document(*segments).len(),
    ensures
        (**segment)@ == document(*segments)[index as int],
{
    &segments[index]
}

/// `im::Vector::clone`: a vector that holds the same items.
#[verifier::external_body]
pub(crate) fn clone_segments(segments: &Segments) -> (r: Segments)
    ensures
        document(r) == document(*segments),
{
    segments.clone()
}

} // verus!
