//! The commands, from the text of a file to the text that replaces it.

use crate::encryption::{outcome, EncryptionSystem};
use crate::error::{AppError, ErrorView};
use crate::parse::{parse, parse_error_view, parse_source};
use crate::segment::{document, SegmentView};
use crate::serialize::{combine, combined, expand, expanded};
use crate::transform::{
    decrypt, encrypt, has_cipher, rewind, transforms, transforms_segment, Transform,
};
use vstd::prelude::*;

verus! {

/// The text that a command writes for what its transform made: the
/// readable form after `Decrypt`, the stored form after the others. The
/// error of a transform that failed is the error of the command.
pub open spec fn written(
    transform: Transform,
    made: Result<Seq<SegmentView>, ErrorView>,
) -> Result<Seq<char>, ErrorView> {
    match made {
        Ok(d) => Ok(
            if transform == Transform::Decrypt {
                expanded(d)
            } else {
                combined(d)
            },
        ),
        Err(e) => Err(e),
    }
}

/// Whether a command can make `r` of the text `source`: it parses the
/// text, applies its transform to the document, and writes what comes out.
pub open spec fn runs<S: EncryptionSystem + ?Sized>(
    system: &S,
    transform: Transform,
    source: Seq<char>,
    r: Result<Seq<char>, ErrorView>,
) -> bool {
    match parse(source) {
        Ok(d) => exists|made: Result<Seq<SegmentView>, ErrorView>|
            #[trigger] transforms(system, transform, d, made) && r == written(transform, made),
        Err(e) => r == Err::<Seq<char>, ErrorView>(parse_error_view(e)),
    }
}

/// What comes out of `Decrypt` holds no ciphertext.
pub proof fn lemma_decrypted_has_no_cipher<S: EncryptionSystem + ?Sized>(
    system: &S,
    d: Seq<SegmentView>,
    made: Seq<SegmentView>,
)
    requires
        transforms(system, Transform::Decrypt, d, Ok(made)),
    ensures
        !has_cipher(made),
{
    assert forall|i: int| 0 <= i < made.len() implies !((#[trigger] made[i]) is Cipher) by {
        assert(transforms_segment(system, Transform::Decrypt, d[i], Ok(made[i])));
    }
}

/// Reads a text, and writes it with every protected span revealed and
/// without markers.
pub fn decrypt_command<S: EncryptionSystem + ?Sized>(source: String, system: &S) -> (r: Result<
    String,
    AppError,
>)
    ensures
        runs(system, Transform::Decrypt, source@, outcome(r)),
{
    let segments = match parse_source(source) {
        Ok(segments) => segments,
        Err(e) => {
            return Err(e);
        },
    };
    let ghost d = document(segments);
    let decrypted = match decrypt(segments, system) {
        Ok(decrypted) => decrypted,
        Err(e) => {
            assert(transforms(system, Transform::Decrypt, d, Err(e@)));
            return Err(e);
        },
    };
    proof {
        assert(transforms(system, Transform::Decrypt, d, Ok(document(decrypted))));
        lemma_decrypted_has_no_cipher(system, d, document(decrypted));
    }
    expand(decrypted)
}

/// Reads a text, and writes it with every span of secure plaintext
/// replaced by a span of ciphertext.
pub fn encrypt_command<S: EncryptionSystem + ?Sized>(source: String, system: &S) -> (r: Result<
    String,
    AppError,
>)
    ensures
        runs(system, Transform::Encrypt, source@, outcome(r)),
{
    let segments = match parse_source(source) {
        Ok(segments) => segments,
        Err(e) => {
            return Err(e);
        },
    };
    let ghost d = document(segments);
    let encrypted = match encrypt(segments, system) {
        Ok(encrypted) => encrypted,
        Err(e) => {
            assert(transforms(system, Transform::Encrypt, d, Err(e@)));
            return Err(e);
        },
    };
    assert(transforms(system, Transform::Encrypt, d, Ok(document(encrypted))));
    combine(encrypted)
}

/// Reads a text, and writes it with every span of ciphertext replaced by
/// the span of secure plaintext that it came from.
pub fn rewind_command<S: EncryptionSystem + ?Sized>(source: String, system: &S) -> (r: Result<
    String,
    AppError,
>)
    ensures
        runs(system, Transform::Rewind, source@, outcome(r)),
{
    let segments = match parse_source(source) {
        Ok(segments) => segments,
        Err(e) => {
            return Err(e);
        },
    };
    let ghost d = document(segments);
    let rewound = match rewind(segments, system) {
        Ok(rewound) => rewound,
        Err(e) => {
            assert(transforms(system, Transform::Rewind, d, Err(e@)));
            return Err(e);
        },
    };
    assert(transforms(system, Transform::Rewind, d, Ok(document(rewound))));
    combine(rewound)
}

} // verus!
