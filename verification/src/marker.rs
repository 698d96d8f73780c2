//! The marker grammar: four literal delimiters, and where they stand in a
//! text.

use crate::text::occurs_at;
use vstd::prelude::*;
use vstd::string::*;
use vstd::utf8::*;

verus! {

/// The two kinds of tagged span.
#[derive(Clone, Copy, Debug, PartialEq, Eq, Structural)]
pub enum SpanKind {
    Secure,
    Cipher,
}

/// One of the four delimiters.
#[derive(Clone, Copy, Debug, PartialEq, Eq, Structural)]
pub enum Marker {
    OpenSecure,
    CloseSecure,
    OpenCipher,
    CloseCipher,
}

impl SpanKind {
    /// The marker that opens a span of this kind.
    pub open spec fn opener(self) -> Marker {
        match self {
            SpanKind::Secure => Marker::OpenSecure,
            SpanKind::Cipher => Marker::OpenCipher,
        }
    }

    /// The marker that closes a span of this kind.
    pub open spec fn closer(self) -> Marker {
        match self {
            SpanKind::Secure => Marker::CloseSecure,
            SpanKind::Cipher => Marker::CloseCipher,
        }
    }

    /// The marker that closes a span of this kind.
    pub fn close_marker(self) -> (m: Marker)
        ensures
            m == self.closer(),
    {
        match self {
            SpanKind::Secure => Marker::CloseSecure,
            SpanKind::Cipher => Marker::CloseCipher,
        }
    }
}

impl Marker {
    /// The delimiter as it stands in a text.
    pub open spec fn text(self) -> Seq<char> {
        match self {
            Marker::OpenSecure => "<<SECURE>>"@,
            Marker::CloseSecure => "<</SECURE>>"@,
            Marker::OpenCipher => "<<CIPHER>>"@,
            Marker::CloseCipher => "<</CIPHER>>"@,
        }
    }

    /// The name between the angle brackets, by which messages call the
    /// marker.
    pub open spec fn name(self) -> Seq<char> {
        match self {
            Marker::OpenSecure => "SECURE"@,
            Marker::CloseSecure => "/SECURE"@,
            Marker::OpenCipher => "CIPHER"@,
            Marker::CloseCipher => "/CIPHER"@,
        }
    }

    /// The kind of span that the marker opens, if it opens one.
    pub open spec fn opens(self) -> Option<SpanKind> {
        match self {
            Marker::OpenSecure => Some(SpanKind::Secure),
            Marker::OpenCipher => Some(SpanKind::Cipher),
            _ => None,
        }
    }

    /// The delimiter as it stands in a text.
    pub fn as_str(self) -> (s: &'static str)
        ensures
            s@ == self.text(),
    {
        match self {
            Marker::OpenSecure => "<<SECURE>>",
            Marker::CloseSecure => "<</SECURE>>",
            Marker::OpenCipher => "<<CIPHER>>",
            Marker::CloseCipher => "<</CIPHER>>",
        }
    }

    /// The name between the angle brackets.
    pub fn name_str(self) -> (s: &'static str)
        ensures
            s@ == self.name(),
    {
        match self {
            Marker::OpenSecure => "SECURE",
            Marker::CloseSecure => "/SECURE",
            Marker::OpenCipher => "CIPHER",
            Marker::CloseCipher => "/CIPHER",
        }
    }

    /// The kind of span that the marker opens, if it opens one.
    pub fn span_opened(self) -> (k: Option<SpanKind>)
        ensures
            k == self.opens(),
    {
        match self {
            Marker::OpenSecure => Some(SpanKind::Secure),
            Marker::OpenCipher => Some(SpanKind::Cipher),
            _ => None,
        }
    }
}

/// The marker that starts at index `i` of `t`, if one does.
pub open spec fn marker_at(t: Seq<char>, i: int) -> Option<Marker> {
    if occurs_at(t, i, Marker::OpenSecure.text()) {
        Some(Marker::OpenSecure)
    } else if occurs_at(t, i, Marker::CloseSecure.text()) {
        Some(Marker::CloseSecure)
    } else if occurs_at(t, i, Marker::OpenCipher.text()) {
        Some(Marker::OpenCipher)
    } else if occurs_at(t, i, Marker::CloseCipher.text()) {
        Some(Marker::CloseCipher)
    } else {
        None
    }
}

/// The index of the leftmost marker of `t` that starts at `from` or later,
/// and the length of `t` where there is none.
pub open spec fn next_marker(t: Seq<char>, from: int) -> int
    decreases t.len() - from,
{
    if from >= t.len() {
        t.len() as int
    } else if marker_at(t, from) is Some {
        from
    } else {
        next_marker(t, from + 1)
    }
}

/// No marker stands anywhere in `t`.
pub open spec fn marker_free(t: Seq<char>) -> bool {
    forall|j: int| 0 <= j < t.len() ==> (#[trigger] marker_at(t, j)) is None
}

/// What the four delimiters have in common: each is ten or eleven ASCII
/// characters long, starts with two `<`, and holds no other `<`.
pub proof fn lemma_marker_shape(m: Marker)
    ensures
        10 <= m.text().len() <= 11,
        is_ascii_chars(m.text()),
        m.text()[0] == '<',
        m.text()[1] == '<',
        forall|k: int| 2 <= k < m.text().len() ==> m.text()[k] != '<',
{
    reveal_strlit("<<SECURE>>");
    reveal_strlit("<</SECURE>>");
    reveal_strlit("<<CIPHER>>");
    reveal_strlit("<</CIPHER>>");
}

/// Where the text of a marker stands, a marker starts.
pub proof fn lemma_marker_at_some(t: Seq<char>, j: int, m: Marker)
    requires
        occurs_at(t, j, m.text()),
    ensures
        marker_at(t, j) is Some,
{
}

/// Where the text of a marker stands, that marker starts, and no other.
pub proof fn lemma_marker_at_is(t: Seq<char>, j: int, m: Marker)
    requires
        occurs_at(t, j, m.text()),
    ensures
        marker_at(t, j) == Some(m),
{
    reveal_strlit("<<SECURE>>");
    reveal_strlit("<</SECURE>>");
    reveal_strlit("<<CIPHER>>");
    reveal_strlit("<</CIPHER>>");
    let a = Marker::OpenSecure.text();
    let b = Marker::CloseSecure.text();
    let c = Marker::OpenCipher.text();
    let e = Marker::CloseCipher.text();
    if occurs_at(t, j, a) {
        assert(t.subrange(j, j + a.len())[2] == 'S');
    }
    if occurs_at(t, j, b) {
        assert(t.subrange(j, j + b.len())[2] == '/');
        assert(t.subrange(j, j + b.len())[3] == 'S');
    }
    if occurs_at(t, j, c) {
        assert(t.subrange(j, j + c.len())[2] == 'C');
    }
    if occurs_at(t, j, e) {
        assert(t.subrange(j, j + e.len())[2] == '/');
        assert(t.subrange(j, j + e.len())[3] == 'C');
    }
}

/// No marker starts at or after the end of a text.
pub proof fn lemma_no_marker_at_end(t: Seq<char>, i: int)
    requires
        i + 10 > t.len(),
    ensures
        marker_at(t, i) is None,
{
    lemma_marker_shape(Marker::OpenSecure);
    lemma_marker_shape(Marker::CloseSecure);
    lemma_marker_shape(Marker::OpenCipher);
    lemma_marker_shape(Marker::CloseCipher);
}

/// `next_marker` finds a marker, or the end of the text, and passes over
/// none.
pub proof fn lemma_next_marker(t: Seq<char>, from: int)
    requires
        0 <= from <= t.len(),
    ensures
        from <= next_marker(t, from) <= t.len(),
        next_marker(t, from) < t.len() ==> marker_at(t, next_marker(t, from)) is Some,
        forall|j: int| from <= j < next_marker(t, from) ==> (#[trigger] marker_at(t, j)) is None,
    decreases t.len() - from,
{
    if from < t.len() && marker_at(t, from) is None {
        lemma_next_marker(t, from + 1);
    }
}

/// An index before which no marker starts, and which holds a marker or is
/// the end of the text, is the one that `next_marker` finds.
pub proof fn lemma_next_marker_is(t: Seq<char>, from: int, i: int)
    requires
        0 <= from <= i <= t.len(),
        forall|j: int| from <= j < i ==> (#[trigger] marker_at(t, j)) is None,
        i < t.len() ==> marker_at(t, i) is Some,
    ensures
        next_marker(t, from) == i,
    decreases i - from,
{
    if from < i {
        lemma_next_marker_is(t, from + 1, i);
    }
}

} // verus!
