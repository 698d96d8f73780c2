//! From text to document.

use crate::error::{AppError, ErrorView};
use crate::marker::{
    lemma_marker_shape, lemma_no_marker_at_end, marker_at, next_marker, Marker, SpanKind,
};
use crate::scan::find_marker;
use crate::segment::{document, new_segments, push_segment, Segment, SegmentView, Segments};
use std::rc::Rc;
use vstd::prelude::*;
use vstd::string::*;

verus! {

/// The ways in which a text can break the marker grammar.
pub enum ParseError {
    /// A closing marker stands where no span is open.
    UnexpectedMarker(Marker),
    /// Inside a span stands a marker other than the one that closes it.
    Mismatch { expected: Marker, found: Marker },
    /// The text ends inside a span.
    Unterminated { expected: Marker },
}

/// The error that reports a grammar violation.
pub open spec fn parse_error_view(e: ParseError) -> ErrorView {
    ErrorView {
        context: "parsing"@,
        detail: match e {
            ParseError::UnexpectedMarker(found) => "expected start tag but found "@ + found.name(),
            ParseError::Mismatch { expected, found } => "expected "@ + expected.name()
                + " but found "@ + found.name(),
            ParseError::Unterminated { expected } => "expected "@ + expected.name()
                + " but found end of string"@,
        },
    }
}

/// A run of unmarked text as segments: none where the run is empty.
pub open spec fn text_run(content: Seq<char>) -> Seq<SegmentView> {
    if content.len() == 0 {
        seq![]
    } else {
        seq![SegmentView::Text(content)]
    }
}

/// The segments `head`, followed by what the rest of the text gives.
pub open spec fn followed_by(
    head: Seq<SegmentView>,
    rest: Result<Seq<SegmentView>, ParseError>,
) -> Result<Seq<SegmentView>, ParseError> {
    match rest {
        Ok(tail) => Ok(head + tail),
        Err(e) => Err(e),
    }
}

/// What the text `t` holds, read from its start. `open` is the kind of the
/// span inside which `t` starts, if it starts inside one.
///
/// The leftmost marker of `t` ends the run of text before it. Outside a
/// span it must open one, and the run before it is unmarked text. Inside a
/// span it must be the marker that closes the span, and the run before it
/// is the content of the span. Where `t` holds no marker, it is unmarked
/// text to its end, and must not be inside a span.
pub open spec fn parse_rest(t: Seq<char>, open: Option<SpanKind>) -> Result<
    Seq<SegmentView>,
    ParseError,
>
    decreases t.len(),
    via parse_rest_decreases
{
    let i = next_marker(t, 0);
    match marker_at(t, i) {
        None => match open {
            None => Ok(text_run(t)),
            Some(kind) => Err(ParseError::Unterminated { expected: kind.closer() }),
        },
        Some(m) => {
            let content = t.subrange(0, i);
            let rest = t.subrange(i + m.text().len(), t.len() as int);
            match open {
                None => match m.opens() {
                    Some(kind) => followed_by(text_run(content), parse_rest(rest, Some(kind))),
                    None => Err(ParseError::UnexpectedMarker(m)),
                },
                Some(kind) => if m == kind.closer() {
                    followed_by(
                        seq![SegmentView::tagged(kind, content)],
                        parse_rest(rest, None),
                    )
                } else {
                    Err(ParseError::Mismatch { expected: kind.closer(), found: m })
                },
            }
        },
    }
}

#[via_fn]
proof fn parse_rest_decreases(t: Seq<char>, open: Option<SpanKind>) {
    let i = next_marker(t, 0);
    if marker_at(t, i) is Some {
        lemma_marker_shape(marker_at(t, i)->Some_0);
    }
}

/// The document that the text `t` holds.
pub open spec fn parse(t: Seq<char>) -> Result<Seq<SegmentView>, ParseError> {
    parse_rest(t, None)
}

/// The segment of a span of the given kind.
fn tagged_segment(kind: SpanKind, content: &str) -> (segment: Segment)
    ensures
        segment@ == SegmentView::tagged(kind, content@),
{
    match kind {
        SpanKind::Secure => Segment::Secure(content.to_owned()),
        SpanKind::Cipher => Segment::Cipher(content.to_owned()),
    }
}

/// The error for a marker that stands where another one, or none, was
/// expected.
fn marker_error(expected: Option<Marker>, found: Marker) -> (e: AppError)
    ensures
        e@ == parse_error_view(
            match expected {
                Some(expected) => ParseError::Mismatch { expected, found },
                None => ParseError::UnexpectedMarker(found),
            },
        ),
{
    let mut detail = match expected {
        Some(expected) => {
            let mut detail = "expected ".to_owned();
            detail.append(expected.name_str());
            detail.append(" but found ");
            detail
        },
        None => "expected start tag but found ".to_owned(),
    };
    detail.append(found.name_str());
    AppError::from_str("parsing", detail.as_str())
}

/// The error for a text that ends inside a span.
fn unterminated_error(expected: Marker) -> (e: AppError)
    ensures
        e@ == parse_error_view(ParseError::Unterminated { expected }),
{
    let mut detail = "expected ".to_owned();
    detail.append(expected.name_str());
    detail.append(" but found end of string");
    AppError::from_str("parsing", detail.as_str())
}

/// Reads a text into the document that it holds.
///
/// Fails on the first violation of the marker grammar, with an error that
/// names the marker that was expected and what was found.
pub fn parse_source(source: String) -> (r: Result<Segments, AppError>)
    ensures
        match parse(source@) {
            Ok(d) => r is Ok && document(r->Ok_0) == d,
            Err(e) => r is Err && r->Err_0@ == parse_error_view(e),
        },
{
    let mut rest: &str = source.as_str();
    let mut expected: Option<SpanKind> = None;
    let mut answer = new_segments();
    loop
        invariant
            parse(source@) == followed_by(document(answer), parse_rest(rest@, expected)),
        decreases rest@.len(),
    {
        match find_marker(rest) {
            Some((content, marker, after)) => {
                proof {
                    lemma_marker_shape(marker);
                    assert(rest@.subrange(0, content@.len() as int) =~= content@);
                    assert(rest@.subrange(
                        (content@.len() + marker.text().len()) as int,
                        rest@.len() as int,
                    ) =~= after@);
                }
                let ghost before = document(answer);
                let ghost was_open = expected;
                match expected {
                    Some(kind) => {
                        if marker != kind.close_marker() {
                            return Err(marker_error(Some(kind.close_marker()), marker));
                        }
                        push_segment(&mut answer, Rc::new(tagged_segment(kind, content)));
                        expected = None;
                    },
                    None => {
                        if !content.is_empty() {
                            push_segment(&mut answer, Rc::new(Segment::Text(content.to_owned())));
                        }
                        match marker.span_opened() {
                            Some(kind) => {
                                expected = Some(kind);
                            },
                            None => {
                                return Err(marker_error(None, marker));
                            },
                        }
                    },
                }
                proof {
                    let head = match was_open {
                        Some(kind) => seq![SegmentView::tagged(kind, content@)],
                        None => text_run(content@),
                    };
                    let tail = parse_rest(after@, expected);
                    assert(document(answer) =~= before + head);
                    assert(parse_rest(rest@, was_open) == followed_by(head, tail));
                    if tail is Ok {
                        assert((before + head) + tail->Ok_0 =~= before + (head + tail->Ok_0));
                    }
                }
                rest = after;
            },
            None => {
                proof {
                    lemma_no_marker_at_end(rest@, rest@.len() as int);
                }
                if let Some(kind) = expected {
                    return Err(unterminated_error(kind.close_marker()));
                }
                let ghost before = document(answer);
                if !rest.is_empty() {
                    push_segment(&mut answer, Rc::new(Segment::Text(rest.to_owned())));
                }
                assert(document(answer) =~= before + text_run(rest@));
                return Ok(answer);
            },
        }
    }
}

} // verus!
