//! The transforms of a document: each goes through it segment by segment
//! and asks the encryption system where a segment needs it.

use crate::encryption::{inverts, outcome, EncryptionSystem};
use crate::error::{AppError, ErrorView};
use crate::segment::{
    document, item_at, new_segments, push_segment, segment_count, Segment, SegmentView, Segments,
};
use std::rc::Rc;
use vstd::prelude::*;
use vstd::string::*;

verus! {

/// The three transforms that go through a document segment by segment.
#[derive(Clone, Copy, Debug, PartialEq, Eq, Structural)]
pub enum Transform {
    /// Secure plaintext becomes ciphertext.
    Encrypt,
    /// Ciphertext becomes secure plaintext again.
    Rewind,
    /// Ciphertext and secure plaintext become plain text.
    Decrypt,
}

/// Whether a transform can make `r` of a segment, with the given system.
///
/// A segment that the transform has nothing to do with stays as it is. One
/// that it hands to the system becomes what the system answers, under its
/// new kind, or fails with the system's error.
pub open spec fn transforms_segment<S: EncryptionSystem + ?Sized>(
    system: &S,
    transform: Transform,
    segment: SegmentView,
    r: Result<SegmentView, ErrorView>,
) -> bool {
    match (transform, segment) {
        (Transform::Encrypt, SegmentView::Secure(plain)) => match r {
            Ok(made) => made is Cipher && system.encrypts(plain, Ok(made.content())),
            Err(e) => system.encrypts(plain, Err(e)),
        },
        (Transform::Rewind, SegmentView::Cipher(cipher)) => match r {
            Ok(made) => made is Secure && system.decrypts(cipher, Ok(made.content())),
            Err(e) => system.decrypts(cipher, Err(e)),
        },
        (Transform::Decrypt, SegmentView::Cipher(cipher)) => match r {
            Ok(made) => made is Text && system.decrypts(cipher, Ok(made.content())),
            Err(e) => system.decrypts(cipher, Err(e)),
        },
        (Transform::Decrypt, SegmentView::Secure(plain)) => r == Ok::<SegmentView, ErrorView>(
            SegmentView::Text(plain),
        ),
        _ => r == Ok::<SegmentView, ErrorView>(segment),
    }
}

/// Whether a transform can get past a segment.
pub open spec fn passes_segment<S: EncryptionSystem + ?Sized>(
    system: &S,
    transform: Transform,
    segment: SegmentView,
) -> bool {
    exists|made: SegmentView| #[trigger] transforms_segment(system, transform, segment, Ok(made))
}

/// Whether a transform can fail with `e` at the segment with index `i`: it
/// can get past every segment before that one, and that one can fail so.
pub open spec fn fails_at<S: EncryptionSystem + ?Sized>(
    system: &S,
    transform: Transform,
    d: Seq<SegmentView>,
    i: int,
    e: ErrorView,
) -> bool {
    &&& 0 <= i < d.len()
    &&& transforms_segment(system, transform, d[i], Err(e))
    &&& forall|j: int| 0 <= j < i ==> #[trigger] passes_segment(system, transform, d[j])
}

/// Whether a transform can make `r` of a document, with the given system.
///
/// A document comes out segment by segment, each made of the segment in
/// its place. An error is the one of the first segment that failed: every
/// segment before it was got past, and nothing of them is kept.
pub open spec fn transforms<S: EncryptionSystem + ?Sized>(
    system: &S,
    transform: Transform,
    d: Seq<SegmentView>,
    r: Result<Seq<SegmentView>, ErrorView>,
) -> bool {
    match r {
        Ok(made) => {
            &&& made.len() == d.len()
            &&& forall|i: int|
                0 <= i < d.len() ==> #[trigger] transforms_segment(
                    system,
                    transform,
                    d[i],
                    Ok(made[i]),
                )
        },
        Err(e) => exists|i: int| #[trigger] fails_at(system, transform, d, i, e),
    }
}

/// What a transform gave, as a model: the document, or the error.
pub open spec fn document_outcome(r: Result<Segments, AppError>) -> Result<
    Seq<SegmentView>,
    ErrorView,
> {
    match r {
        Ok(segments) => Ok(document(segments)),
        Err(e) => Err(e@),
    }
}

/// What a transform gave for one segment, as a model.
pub open spec fn segment_outcome(r: Result<Rc<Segment>, AppError>) -> Result<
    SegmentView,
    ErrorView,
> {
    match r {
        Ok(segment) => Ok((*segment)@),
        Err(e) => Err(e@),
    }
}

/// No segment of the document is secure plaintext.
pub open spec fn has_no_secure(d: Seq<SegmentView>) -> bool {
    forall|i: int| 0 <= i < d.len() ==> !((#[trigger] d[i]) is Secure)
}

/// Some segment of the document is ciphertext.
pub open spec fn has_cipher(d: Seq<SegmentView>) -> bool {
    exists|i: int| 0 <= i < d.len() && (#[trigger] d[i]) is Cipher
}

/// What a transform makes of the system's answer for the content of a
/// segment: the segment that now holds the answer, or the system's error.
pub open spec fn made_of(
    transform: Transform,
    answer: Result<Seq<char>, ErrorView>,
) -> Result<SegmentView, ErrorView> {
    match answer {
        Ok(text) => Ok(
            match transform {
                Transform::Encrypt => SegmentView::Cipher(text),
                Transform::Rewind => SegmentView::Secure(text),
                Transform::Decrypt => SegmentView::Text(text),
            },
        ),
        Err(e) => Err(e),
    }
}

/// Makes a segment of the system's answer: ciphertext after `Encrypt`,
/// secure plaintext after `Rewind`, plain text after `Decrypt`. The
/// system's error is handed on as it is.
pub fn answered(transform: Transform, answer: Result<String, AppError>) -> (r: Result<
    Rc<Segment>,
    AppError,
>)
    ensures
        segment_outcome(r) == made_of(transform, outcome(answer)),
{
    match answer {
        Ok(text) => Ok(
            Rc::new(
                match transform {
                    Transform::Encrypt => Segment::Cipher(text),
                    Transform::Rewind => Segment::Secure(text),
                    Transform::Decrypt => Segment::Text(text),
                },
            ),
        ),
        Err(e) => Err(e),
    }
}

/// Applies a transform to one segment. A segment that stays as it is is
/// shared, not copied.
pub fn transform_segment<S: EncryptionSystem + ?Sized>(
    transform: Transform,
    segment: &Rc<Segment>,
    system: &S,
) -> (r: Result<Rc<Segment>, AppError>)
    ensures
        transforms_segment(system, transform, (**segment)@, segment_outcome(r)),
{
    match (transform, &**segment) {
        (Transform::Encrypt, Segment::Secure(plain)) => answered(
            transform,
            system.encrypt(plain.as_str()),
        ),
        (Transform::Rewind, Segment::Cipher(cipher)) => answered(
            transform,
            system.decrypt(cipher.as_str()),
        ),
        (Transform::Decrypt, Segment::Cipher(cipher)) => answered(
            transform,
            system.decrypt(cipher.as_str()),
        ),
        (Transform::Decrypt, Segment::Secure(plain)) => Ok(Rc::new(Segment::Text(plain.clone()))),
        _ => Ok(Rc::clone(segment)),
    }
}

/// Applies a transform to a document, segment by segment, and stops at the
/// first failure.
pub fn transform_segments<S: EncryptionSystem + ?Sized>(
    transform: Transform,
    segments: &Segments,
    system: &S,
) -> (r: Result<Segments, AppError>)
    ensures
        transforms(system, transform, document(*segments), document_outcome(r)),
{
    let ghost d = document(*segments);
    let count = segment_count(segments);
    let mut answer = new_segments();
    let mut index: usize = 0;
    while index < count
        invariant
            index <= count,
            count == d.len(),
            d == document(*segments),
            document(answer).len() == index,
            forall|i: int|
                0 <= i < index ==> #[trigger] transforms_segment(
                    system,
                    transform,
                    d[i],
                    Ok(document(answer)[i]),
                ),
        decreases count - index,
    {
        let ghost before = document(answer);
        match transform_segment(transform, item_at(segments, index), system) {
            Ok(made) => {
                push_segment(&mut answer, made);
            },
            Err(e) => {
                proof {
                    assert forall|j: int| 0 <= j < index implies #[trigger] passes_segment(
                        system,
                        transform,
                        d[j],
                    ) by {
                        assert(transforms_segment(system, transform, d[j], Ok(before[j])));
                    }
                    let failure = Err::<Seq<SegmentView>, ErrorView>(e@);
                    assert(fails_at(system, transform, d, index as int, failure->Err_0));
                }
                return Err(e);
            },
        }
        index += 1;
    }
    Ok(answer)
}

/// A document without secure plaintext comes out of `Encrypt` as it is.
pub proof fn lemma_encrypt_without_secure<S: EncryptionSystem + ?Sized>(
    system: &S,
    d: Seq<SegmentView>,
    r: Result<Seq<SegmentView>, ErrorView>,
)
    requires
        transforms(system, Transform::Encrypt, d, r),
        has_no_secure(d),
    ensures
        r == Ok::<Seq<SegmentView>, ErrorView>(d),
{
    match r {
        Ok(made) => {
            assert forall|i: int| 0 <= i < d.len() implies made[i] == d[i] by {
                assert(transforms_segment(system, Transform::Encrypt, d[i], Ok(made[i])));
                assert(!(d[i] is Secure));
            }
            assert(made =~= d);
        },
        Err(e) => {
            let i = choose|i: int| #[trigger] fails_at(system, Transform::Encrypt, d, i, e);
            assert(!(d[i] is Secure));
        },
    }
}

/// A document without ciphertext comes out of `Rewind` as it is.
pub proof fn lemma_rewind_without_cipher<S: EncryptionSystem + ?Sized>(
    system: &S,
    d: Seq<SegmentView>,
    r: Result<Seq<SegmentView>, ErrorView>,
)
    requires
        transforms(system, Transform::Rewind, d, r),
        !has_cipher(d),
    ensures
        r == Ok::<Seq<SegmentView>, ErrorView>(d),
{
    assert forall|i: int| 0 <= i < d.len() implies !((#[trigger] d[i]) is Cipher) by {}
    match r {
        Ok(made) => {
            assert forall|i: int| 0 <= i < d.len() implies made[i] == d[i] by {
                assert(transforms_segment(system, Transform::Rewind, d[i], Ok(made[i])));
                assert(!(d[i] is Cipher));
            }
            assert(made =~= d);
        },
        Err(e) => {
            let i = choose|i: int| #[trigger] fails_at(system, Transform::Rewind, d, i, e);
            assert(!(d[i] is Cipher));
        },
    }
}

/// Replaces every span of secure plaintext by the ciphertext that the
/// system makes of it. Plain text and ciphertext stay as they are.
pub fn encrypt<S: EncryptionSystem + ?Sized>(segments: Segments, system: &S) -> (r: Result<
    Segments,
    AppError,
>)
    ensures
        transforms(system, Transform::Encrypt, document(segments), document_outcome(r)),
        has_no_secure(document(segments)) ==> r is Ok && document(r->Ok_0) == document(segments),
{
    let r = transform_segments(Transform::Encrypt, &segments, system);
    proof {
        if has_no_secure(document(segments)) {
            lemma_encrypt_without_secure(system, document(segments), document_outcome(r));
        }
    }
    r
}

/// Replaces every span of ciphertext by the secure plaintext that the
/// system recovers from it. Plain text and secure plaintext stay as they
/// are: the spans that were protected are still marked.
pub fn rewind<S: EncryptionSystem + ?Sized>(segments: Segments, system: &S) -> (r: Result<
    Segments,
    AppError,
>)
    ensures
        transforms(system, Transform::Rewind, document(segments), document_outcome(r)),
        !has_cipher(document(segments)) ==> r is Ok && document(r->Ok_0) == document(segments),
{
    let r = transform_segments(Transform::Rewind, &segments, system);
    proof {
        if !has_cipher(document(segments)) {
            lemma_rewind_without_cipher(system, document(segments), document_outcome(r));
        }
    }
    r
}

/// Makes plain text of every segment: of ciphertext what the system
/// recovers from it, of secure plaintext its content.
pub fn decrypt<S: EncryptionSystem + ?Sized>(segments: Segments, system: &S) -> (r: Result<
    Segments,
    AppError,
>)
    ensures
        transforms(system, Transform::Decrypt, document(segments), document_outcome(r)),
{
    transform_segments(Transform::Decrypt, &segments, system)
}

/// With a system whose `decrypt` recovers what its `encrypt` was given,
/// `Rewind` recovers the document that `Encrypt` was given, as long as the
/// document held no ciphertext before.
pub proof fn lemma_rewind_recovers<S: EncryptionSystem + ?Sized>(
    system: &S,
    d: Seq<SegmentView>,
    encrypted: Seq<SegmentView>,
    r: Result<Seq<SegmentView>, ErrorView>,
)
    requires
        inverts(system),
        !has_cipher(d),
        transforms(system, Transform::Encrypt, d, Ok(encrypted)),
        transforms(system, Transform::Rewind, encrypted, r),
    ensures
        r == Ok::<Seq<SegmentView>, ErrorView>(d),
{
    assert forall|i: int| 0 <= i < d.len() implies !((#[trigger] d[i]) is Cipher) by {}
    match r {
        Ok(made) => {
            assert forall|i: int| 0 <= i < d.len() implies made[i] == d[i] by {
                assert(transforms_segment(system, Transform::Encrypt, d[i], Ok(encrypted[i])));
                assert(transforms_segment(system, Transform::Rewind, encrypted[i], Ok(made[i])));
                assert(!(d[i] is Cipher));
                if d[i] is Secure {
                    assert(system.encrypts(d[i].content(), Ok(encrypted[i].content())));
                    assert(system.decrypts(encrypted[i].content(), Ok(made[i].content())));
                }
            }
            assert(made =~= d);
        },
        Err(e) => {
            let i = choose|i: int| #[trigger] fails_at(system, Transform::Rewind, encrypted, i, e);
            assert(transforms_segment(system, Transform::Encrypt, d[i], Ok(encrypted[i])));
            assert(!(d[i] is Cipher));
            if d[i] is Secure {
                assert(system.encrypts(d[i].content(), Ok(encrypted[i].content())));
                assert(system.decrypts(encrypted[i].content(), Err(e)));
            }
        },
    }
}

} // verus!
