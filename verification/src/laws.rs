//! What holds between parsing a text, writing a document, and the
//! transforms in between.

use crate::command::{runs, written};
use crate::encryption::{inverts, seals, EncryptionSystem};
use crate::error::ErrorView;
use crate::marker::{
    lemma_marker_at_is, lemma_marker_at_some, lemma_marker_shape, lemma_next_marker,
    lemma_next_marker_is, lemma_no_marker_at_end, marker_at, marker_free, next_marker, Marker,
    SpanKind,
};
use crate::parse::{followed_by, parse, parse_rest, text_run, ParseError};
use crate::segment::SegmentView;
use crate::serialize::{combined, expanded, segment_text};
use crate::text::occurs_at;
use crate::transform::{
    fails_at, has_cipher, lemma_rewind_recovers, transforms, transforms_segment, Transform,
};
use vstd::prelude::*;

verus! {

/// A document as parsing gives it: no content holds a marker, no unmarked
/// text is empty, and no unmarked text follows another.
pub open spec fn canonical(d: Seq<SegmentView>) -> bool {
    &&& forall|i: int| 0 <= i < d.len() ==> marker_free((#[trigger] d[i]).content())
    &&& forall|i: int| 0 <= i < d.len() && (#[trigger] d[i]) is Text ==> d[i].content().len() > 0
    &&& forall|i: int|
        0 <= i < d.len() - 1 && (#[trigger] d[i]) is Text ==> !(d[i + 1] is Text)
}

/// No marker starts inside a marker-free content and runs into the marker
/// that follows it.
proof fn lemma_no_marker_across(c: Seq<char>, m: Marker, rest: Seq<char>, j: int, other: Marker)
    requires
        marker_free(c),
        0 <= j < c.len(),
    ensures
        !occurs_at(c + m.text() + rest, j, other.text()),
{
    let t = c + m.text() + rest;
    let x = other.text();
    let n = c.len() as int;
    lemma_marker_shape(m);
    lemma_marker_shape(other);
    if occurs_at(t, j, x) {
        let found = t.subrange(j, j + x.len());
        if j + x.len() <= c.len() {
            assert(c.subrange(j, j + x.len()) =~= found);
            lemma_marker_at_some(c, j, other);
        } else {
            let k = n - j;
            assert(found[k] == t[n]);
            assert(t[n] == m.text()[0]);
            assert(k == 1);
            assert(found[2] == t[n + 1]);
            assert(t[n + 1] == m.text()[1]);
        }
    }
}

/// After a marker-free content, the marker that follows it is the
/// leftmost marker of the text.
pub proof fn lemma_marker_after_content(c: Seq<char>, m: Marker, rest: Seq<char>)
    requires
        marker_free(c),
    ensures
        next_marker(c + m.text() + rest, 0) == c.len(),
        marker_at(c + m.text() + rest, c.len() as int) == Some(m),
{
    let t = c + m.text() + rest;
    let n = c.len() as int;
    lemma_marker_shape(m);
    assert(t.subrange(n, n + m.text().len()) =~= m.text());
    lemma_marker_at_is(t, n, m);
    assert forall|j: int| 0 <= j < c.len() implies (#[trigger] marker_at(t, j)) is None by {
        lemma_no_marker_across(c, m, rest, j, Marker::OpenSecure);
        lemma_no_marker_across(c, m, rest, j, Marker::CloseSecure);
        lemma_no_marker_across(c, m, rest, j, Marker::OpenCipher);
        lemma_no_marker_across(c, m, rest, j, Marker::CloseCipher);
    }
    lemma_next_marker_is(t, 0, c.len() as int);
}

/// Unmarked text, the opener of a span, and what follows: the text comes
/// out as a segment, and the rest is read inside the span.
pub proof fn lemma_parse_opener(c: Seq<char>, kind: SpanKind, tail: Seq<char>)
    requires
        marker_free(c),
    ensures
        parse_rest(c + kind.opener().text() + tail, None) == followed_by(
            text_run(c),
            parse_rest(tail, Some(kind)),
        ),
{
    let m = kind.opener();
    let t = c + m.text() + tail;
    lemma_marker_after_content(c, m, tail);
    assert(t.subrange(0, c.len() as int) =~= c);
    assert(t.subrange(c.len() as int + m.text().len(), t.len() as int) =~= tail);
}

/// The content of a span, its closer, and what follows: the content comes
/// out as a segment of the kind of the span, and the rest is read outside
/// any span.
pub proof fn lemma_parse_closer(c: Seq<char>, kind: SpanKind, tail: Seq<char>)
    requires
        marker_free(c),
    ensures
        parse_rest(c + kind.closer().text() + tail, Some(kind)) == followed_by(
            seq![SegmentView::tagged(kind, c)],
            parse_rest(tail, None),
        ),
{
    let m = kind.closer();
    let t = c + m.text() + tail;
    lemma_marker_after_content(c, m, tail);
    assert(t.subrange(0, c.len() as int) =~= c);
    assert(t.subrange(c.len() as int + m.text().len(), t.len() as int) =~= tail);
}

/// A canonical document stays canonical without its first segment.
proof fn lemma_canonical_tail(d: Seq<SegmentView>)
    requires
        canonical(d),
        d.len() > 0,
    ensures
        canonical(d.drop_first()),
{
    let tail = d.drop_first();
    assert forall|i: int| 0 <= i < tail.len() implies marker_free((#[trigger] tail[i]).content())
        && (tail[i] is Text ==> tail[i].content().len() > 0) by {
        assert(tail[i] == d[i + 1]);
    }
    assert forall|i: int|
        0 <= i < tail.len() - 1 && (#[trigger] tail[i]) is Text implies !(tail[i + 1] is Text) by {
        assert(tail[i] == d[i + 1]);
        assert(tail[i + 1] == d[i + 2]);
    }
}

/// A canonical document stays canonical with a segment before it that
/// fits: its content holds no marker, and where it is unmarked text, it is
/// not empty and no unmarked text follows it.
proof fn lemma_canonical_cons(first: SegmentView, tail: Seq<SegmentView>)
    requires
        canonical(tail),
        marker_free(first.content()),
        first is Text ==> first.content().len() > 0 && (tail.len() > 0 ==> !(tail[0] is Text)),
    ensures
        canonical(seq![first] + tail),
{
    let d = seq![first] + tail;
    assert forall|i: int| 0 <= i < d.len() implies marker_free((#[trigger] d[i]).content())
        && (d[i] is Text ==> d[i].content().len() > 0) by {
        if i > 0 {
            assert(d[i] == tail[i - 1]);
        }
    }
    assert forall|i: int|
        0 <= i < d.len() - 1 && (#[trigger] d[i]) is Text implies !(d[i + 1] is Text) by {
        assert(d[i + 1] == tail[i]);
        if i > 0 {
            assert(d[i] == tail[i - 1]);
        }
    }
}

/// The stored form of a document is the text of its first segment,
/// followed by the stored form of the rest.
proof fn lemma_combined_cons(first: SegmentView, tail: Seq<SegmentView>)
    ensures
        combined(seq![first] + tail) == segment_text(first) + combined(tail),
{
    let d = seq![first] + tail;
    assert(d.drop_first() =~= tail);
}

/// The stored form of the empty document is the empty text.
proof fn lemma_combined_empty()
    ensures
        combined(Seq::<SegmentView>::empty()) == Seq::<char>::empty(),
{
    assert(combined(Seq::<SegmentView>::empty()) =~= Seq::<char>::empty());
}

/// A text without markers, read outside any span, is one run of unmarked
/// text.
proof fn lemma_parse_plain(c: Seq<char>)
    requires
        marker_free(c),
    ensures
        parse_rest(c, None) == Ok::<Seq<SegmentView>, ParseError>(text_run(c)),
{
    lemma_next_marker_is(c, 0, c.len() as int);
    lemma_no_marker_at_end(c, c.len() as int);
}

/// A span, written and followed by a text, is read as the segment of the
/// span, followed by what the text holds.
proof fn lemma_parse_span(c: Seq<char>, kind: SpanKind, p: Seq<char>, tail: Seq<char>)
    requires
        marker_free(c),
        marker_free(p),
    ensures
        parse_rest(c + segment_text(SegmentView::tagged(kind, p)) + tail, None) == followed_by(
            text_run(c) + seq![SegmentView::tagged(kind, p)],
            parse_rest(tail, None),
        ),
{
    let inside = p + kind.closer().text() + tail;
    let t = c + segment_text(SegmentView::tagged(kind, p)) + tail;
    assert(t =~= c + kind.opener().text() + inside);
    lemma_parse_opener(c, kind, inside);
    lemma_parse_closer(p, kind, tail);
    let read = parse_rest(tail, None);
    if read is Ok {
        assert(text_run(c) + (seq![SegmentView::tagged(kind, p)] + read->Ok_0) =~= (text_run(c)
            + seq![SegmentView::tagged(kind, p)]) + read->Ok_0);
    }
}

/// Writing a canonical document and parsing what was written gives the
/// document back.
pub proof fn lemma_parse_combined(d: Seq<SegmentView>)
    requires
        canonical(d),
    ensures
        parse(combined(d)) == Ok::<Seq<SegmentView>, ParseError>(d),
    decreases d.len(),
{
    let none = Seq::<char>::empty();
    if d.len() == 0 {
        assert(d =~= Seq::<SegmentView>::empty());
        lemma_combined_empty();
        lemma_parse_plain(none);
        assert(text_run(none) =~= d);
    } else {
        let rest = d.drop_first();
        assert(d =~= seq![d[0]] + rest);
        lemma_combined_cons(d[0], rest);
        lemma_canonical_tail(d);
        match d[0].span() {
            None => {
                let c = d[0].content();
                if rest.len() == 0 {
                    assert(rest =~= Seq::<SegmentView>::empty());
                    lemma_combined_empty();
                    assert(combined(d) =~= c);
                    lemma_parse_plain(c);
                    assert(text_run(c) =~= d);
                } else {
                    assert(rest[0] == d[1]);
                    let kind = rest[0].span()->Some_0;
                    let p = rest[0].content();
                    let after = rest.drop_first();
                    assert(rest =~= seq![rest[0]] + after);
                    assert(rest[0] == SegmentView::tagged(kind, p));
                    lemma_combined_cons(rest[0], after);
                    lemma_canonical_tail(rest);
                    lemma_parse_combined(after);
                    assert(combined(d) =~= c + segment_text(rest[0]) + combined(after));
                    lemma_parse_span(c, kind, p, combined(after));
                    assert((text_run(c) + seq![rest[0]]) + after =~= d);
                }
            },
            Some(kind) => {
                let p = d[0].content();
                assert(d[0] == SegmentView::tagged(kind, p));
                lemma_parse_combined(rest);
                assert(combined(d) =~= none + segment_text(d[0]) + combined(rest));
                assert(marker_free(none));
                lemma_parse_span(none, kind, p, combined(rest));
                assert((text_run(none) + seq![d[0]]) + rest =~= d);
            },
        }
    }
}

/// The marker that a text inside a span started with, and nothing for a
/// text outside any span.
pub open spec fn opening(open: Option<SpanKind>) -> Seq<char> {
    match open {
        Some(kind) => kind.opener().text(),
        None => Seq::<char>::empty(),
    }
}

/// The text before the leftmost marker holds no marker.
proof fn lemma_content_marker_free(t: Seq<char>)
    ensures
        marker_free(t.subrange(0, next_marker(t, 0))),
{
    let i = next_marker(t, 0);
    let content = t.subrange(0, i);
    lemma_next_marker(t, 0);
    assert forall|j: int|
        0 <= j < content.len() implies (#[trigger] marker_at(content, j)) is None by {
        if marker_at(content, j) is Some {
            let m = marker_at(content, j)->Some_0;
            assert(t.subrange(j, j + m.text().len()) =~= content.subrange(j, j + m.text().len()));
            lemma_marker_at_some(t, j, m);
        }
    }
}

/// What is read from a text is canonical, and written again it is the
/// text, after the marker that opened the span inside which the text
/// started. Read inside a span, the first segment is that of the span.
pub proof fn lemma_parse_rest_written(t: Seq<char>, open: Option<SpanKind>)
    requires
        parse_rest(t, open) is Ok,
    ensures
        canonical(parse_rest(t, open)->Ok_0),
        combined(parse_rest(t, open)->Ok_0) == opening(open) + t,
        open is Some ==> parse_rest(t, open)->Ok_0.len() > 0
            && !(parse_rest(t, open)->Ok_0[0] is Text),
    decreases t.len(),
{
    let d = parse_rest(t, open)->Ok_0;
    let i = next_marker(t, 0);
    lemma_next_marker(t, 0);
    lemma_content_marker_free(t);
    match marker_at(t, i) {
        None => {
            assert(t.subrange(0, i) =~= t);
            assert(canonical(text_run(t)));
            lemma_combined_empty();
            if t.len() > 0 {
                lemma_combined_cons(SegmentView::Text(t), Seq::<SegmentView>::empty());
                assert(seq![SegmentView::Text(t)] + Seq::<SegmentView>::empty() =~= text_run(t));
            }
            assert(combined(text_run(t)) =~= t);
        },
        Some(m) => {
            lemma_marker_shape(m);
            let content = t.subrange(0, i);
            let rest = t.subrange(i + m.text().len(), t.len() as int);
            assert(t =~= content + m.text() + rest);
            match open {
                None => {
                    let kind = m.opens()->Some_0;
                    let inner = parse_rest(rest, Some(kind))->Ok_0;
                    lemma_parse_rest_written(rest, Some(kind));
                    if content.len() == 0 {
                        assert(d =~= inner);
                        assert(t =~= m.text() + rest);
                    } else {
                        lemma_canonical_cons(SegmentView::Text(content), inner);
                        lemma_combined_cons(SegmentView::Text(content), inner);
                        assert(d =~= seq![SegmentView::Text(content)] + inner);
                        assert(combined(d) =~= content + (m.text() + rest));
                    }
                },
                Some(kind) => {
                    let outer = parse_rest(rest, None)->Ok_0;
                    lemma_parse_rest_written(rest, None);
                    let first = SegmentView::tagged(kind, content);
                    lemma_canonical_cons(first, outer);
                    lemma_combined_cons(first, outer);
                    assert(d =~= seq![first] + outer);
                    assert(combined(d) =~= kind.opener().text() + content + m.text() + rest);
                },
            }
        },
    }
}

/// What is parsed from a text is canonical, and written again it is the
/// text.
pub proof fn lemma_combine_parsed(t: Seq<char>)
    requires
        parse(t) is Ok,
    ensures
        canonical(parse(t)->Ok_0),
        combined(parse(t)->Ok_0) == t,
{
    lemma_parse_rest_written(t, None);
    assert(opening(None) + t =~= t);
}

/// A document that was parsed from a text comes back when it is written
/// and parsed again.
pub proof fn lemma_round_trip(t: Seq<char>)
    requires
        parse(t) is Ok,
    ensures
        parse(combined(parse(t)->Ok_0)) == parse(t),
{
    lemma_combine_parsed(t);
}

/// Only a canonical document comes back when it is written and parsed.
pub proof fn lemma_round_trip_only_canonical(d: Seq<SegmentView>)
    requires
        parse(combined(d)) == Ok::<Seq<SegmentView>, ParseError>(d),
    ensures
        canonical(d),
{
    lemma_combine_parsed(combined(d));
}

/// With a system whose ciphertext holds no marker, what `Encrypt` makes of
/// a canonical document is canonical.
pub proof fn lemma_encrypted_is_canonical<S: EncryptionSystem + ?Sized>(
    system: &S,
    d: Seq<SegmentView>,
    encrypted: Seq<SegmentView>,
)
    requires
        seals(system),
        canonical(d),
        transforms(system, Transform::Encrypt, d, Ok(encrypted)),
    ensures
        canonical(encrypted),
{
    let e = encrypted;
    assert forall|i: int| 0 <= i < e.len() implies marker_free((#[trigger] e[i]).content())
        && (e[i] is Text <==> d[i] is Text)
        && (e[i] is Text ==> e[i].content().len() > 0) by {
        assert(transforms_segment(system, Transform::Encrypt, d[i], Ok(e[i])));
        assert(marker_free(d[i].content()));
        if d[i] is Secure {
            assert(system.encrypts(d[i].content(), Ok(e[i].content())));
        }
    }
    assert forall|i: int|
        0 <= i < e.len() - 1 && (#[trigger] e[i]) is Text implies !(e[i + 1] is Text) by {
        assert(marker_free(e[i + 1].content()));
        assert(d[i] is Text);
    }
}

/// Two documents whose segments hold the same contents, one by one, have
/// the same readable form.
proof fn lemma_expanded_of_contents(a: Seq<SegmentView>, b: Seq<SegmentView>)
    requires
        a.len() == b.len(),
        forall|i: int| 0 <= i < a.len() ==> (#[trigger] a[i]).content() == b[i].content(),
    ensures
        expanded(a) == expanded(b),
    decreases a.len(),
{
    if a.len() > 0 {
        let x = a.drop_first();
        let y = b.drop_first();
        assert forall|i: int| 0 <= i < x.len() implies (#[trigger] x[i]).content()
            == y[i].content() by {
            assert(x[i] == a[i + 1]);
            assert(y[i] == b[i + 1]);
        }
        lemma_expanded_of_contents(x, y);
        assert(a[0].content() == b[0].content());
    }
}

/// With a system whose `decrypt` recovers what its `encrypt` was given,
/// `Decrypt` reveals of an encrypted document what the document held
/// before, as long as it held no ciphertext then.
pub proof fn lemma_decrypt_recovers<S: EncryptionSystem + ?Sized>(
    system: &S,
    d: Seq<SegmentView>,
    encrypted: Seq<SegmentView>,
    r: Result<Seq<SegmentView>, ErrorView>,
)
    requires
        inverts(system),
        !has_cipher(d),
        transforms(system, Transform::Encrypt, d, Ok(encrypted)),
        transforms(system, Transform::Decrypt, encrypted, r),
    ensures
        r is Ok,
        expanded(r->Ok_0) == expanded(d),
{
    assert forall|i: int| 0 <= i < d.len() implies !((#[trigger] d[i]) is Cipher) by {}
    match r {
        Ok(made) => {
            assert forall|i: int| 0 <= i < made.len() implies (#[trigger] made[i]).content()
                == d[i].content() by {
                assert(transforms_segment(system, Transform::Encrypt, d[i], Ok(encrypted[i])));
                assert(transforms_segment(system, Transform::Decrypt, encrypted[i], Ok(made[i])));
                assert(!(d[i] is Cipher));
                if d[i] is Secure {
                    assert(system.encrypts(d[i].content(), Ok(encrypted[i].content())));
                    assert(system.decrypts(encrypted[i].content(), Ok(made[i].content())));
                }
            }
            lemma_expanded_of_contents(made, d);
        },
        Err(e) => {
            let i = choose|i: int| #[trigger] fails_at(system, Transform::Decrypt, encrypted, i, e);
            assert(transforms_segment(system, Transform::Encrypt, d[i], Ok(encrypted[i])));
            assert(!(d[i] is Cipher));
            if d[i] is Secure {
                assert(system.encrypts(d[i].content(), Ok(encrypted[i].content())));
                assert(system.decrypts(encrypted[i].content(), Err(e)));
            }
        },
    }
}

/// What the command `encrypt` has stored, the command `decrypt` reads as
/// the text was before, without its markers.
///
/// This holds with a system whose `decrypt` recovers what its `encrypt`
/// was given and whose ciphertext holds no marker, for a text that held no
/// ciphertext before.
pub proof fn lemma_decrypt_after_encrypt<S: EncryptionSystem + ?Sized>(
    system: &S,
    t: Seq<char>,
    stored: Seq<char>,
    r: Result<Seq<char>, ErrorView>,
)
    requires
        inverts(system),
        seals(system),
        parse(t) is Ok,
        !has_cipher(parse(t)->Ok_0),
        runs(system, Transform::Encrypt, t, Ok(stored)),
        runs(system, Transform::Decrypt, stored, r),
    ensures
        r == Ok::<Seq<char>, ErrorView>(expanded(parse(t)->Ok_0)),
{
    let d = parse(t)->Ok_0;
    let made = choose|made: Result<Seq<SegmentView>, ErrorView>|
        #[trigger] transforms(system, Transform::Encrypt, d, made) && Ok::<
            Seq<char>,
            ErrorView,
        >(stored) == written(Transform::Encrypt, made);
    let encrypted = made->Ok_0;
    lemma_combine_parsed(t);
    lemma_encrypted_is_canonical(system, d, encrypted);
    lemma_parse_combined(encrypted);
    let shown = choose|shown: Result<Seq<SegmentView>, ErrorView>|
        #[trigger] transforms(system, Transform::Decrypt, encrypted, shown) && r == written(
            Transform::Decrypt,
            shown,
        );
    lemma_decrypt_recovers(system, d, encrypted, shown);
}

/// What the command `encrypt` has stored, the command `rewind` writes as
/// the text was before.
///
/// This holds with a system whose `decrypt` recovers what its `encrypt`
/// was given and whose ciphertext holds no marker, for a text that held no
/// ciphertext before.
pub proof fn lemma_rewind_after_encrypt<S: EncryptionSystem + ?Sized>(
    system: &S,
    t: Seq<char>,
    stored: Seq<char>,
    r: Result<Seq<char>, ErrorView>,
)
    requires
        inverts(system),
        seals(system),
        parse(t) is Ok,
        !has_cipher(parse(t)->Ok_0),
        runs(system, Transform::Encrypt, t, Ok(stored)),
        runs(system, Transform::Rewind, stored, r),
    ensures
        r == Ok::<Seq<char>, ErrorView>(t),
{
    let d = parse(t)->Ok_0;
    let made = choose|made: Result<Seq<SegmentView>, ErrorView>|
        #[trigger] transforms(system, Transform::Encrypt, d, made) && Ok::<
            Seq<char>,
            ErrorView,
        >(stored) == written(Transform::Encrypt, made);
    let encrypted = made->Ok_0;
    lemma_combine_parsed(t);
    lemma_encrypted_is_canonical(system, d, encrypted);
    lemma_parse_combined(encrypted);
    let shown = choose|shown: Result<Seq<SegmentView>, ErrorView>|
        #[trigger] transforms(system, Transform::Rewind, encrypted, shown) && r == written(
            Transform::Rewind,
            shown,
        );
    lemma_rewind_recovers(system, d, encrypted, shown);
}

} // verus!
