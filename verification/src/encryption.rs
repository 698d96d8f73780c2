//! The encryption capability that the transforms consume, and the system
//! that stands in for one by encoding.

use crate::error::{AppError, ErrorView};
use crate::marker::{lemma_marker_shape, marker_at, marker_free};
use base64::engine::general_purpose::URL_SAFE;
use base64::{DecodeError, Engine};
use std::string::FromUtf8Error;
use vstd::prelude::*;
use vstd::string::*;
use vstd::utf8::*;

verus! {

/// What a call of an encryption system gave, as a model: the text, or the
/// error.
pub open spec fn outcome(r: Result<String, AppError>) -> Result<Seq<char>, ErrorView> {
    match r {
        Ok(s) => Ok(s@),
        Err(e) => Err(e@),
    }
}

/// The capability to turn plaintext into ciphertext and back.
///
/// A system may answer differently each time it is asked, and may fail.
/// `encrypts` and `decrypts` say which answers it can give; an
/// implementation that leaves them as they are can give any. For a
/// document to come back as it was, `decrypt` must recover the plaintext
/// from what `encrypt` made of it, and what `encrypt` makes must be fit to
/// stand between two markers: see [`inverts`] and [`seals`].
pub trait EncryptionSystem {
    /// Whether `encrypt` can answer `r` when asked for `plaintext`.
    open spec fn encrypts(&self, plaintext: Seq<char>, r: Result<Seq<char>, ErrorView>) -> bool {
        true
    }

    /// Whether `decrypt` can answer `r` when asked for `ciphertext`.
    open spec fn decrypts(&self, ciphertext: Seq<char>, r: Result<Seq<char>, ErrorView>) -> bool {
        true
    }

    /// Turns plaintext into a text that can stand as the content of a
    /// cipher span.
    fn encrypt(&self, plaintext: &str) -> (r: Result<String, AppError>)
        ensures
            self.encrypts(plaintext@, outcome(r)),
    ;

    /// Recovers the plaintext from a ciphertext.
    fn decrypt(&self, ciphertext: &str) -> (r: Result<String, AppError>)
        ensures
            self.decrypts(ciphertext@, outcome(r)),
    ;
}

/// Whatever the system makes of a plaintext, it turns back into that
/// plaintext.
pub open spec fn inverts<S: EncryptionSystem + ?Sized>(system: &S) -> bool {
    forall|plaintext: Seq<char>, ciphertext: Seq<char>, r: Result<Seq<char>, ErrorView>|
        #![trigger system.encrypts(plaintext, Ok(ciphertext)), system.decrypts(ciphertext, r)]
        system.encrypts(plaintext, Ok(ciphertext)) && system.decrypts(ciphertext, r) ==> r == Ok::<
            Seq<char>,
            ErrorView,
        >(plaintext)
}

/// `base64::DecodeError`, the error of a text that is no encoding: a type
/// whose inside is not looked into. It is rendered, and nothing else.
#[verifier::external_type_specification]
#[verifier::external_body]
pub struct ExDecodeError(DecodeError);

/// `std::string::FromUtf8Error`, the error of bytes that are no text: a
/// type whose inside is not looked into. It is rendered, and nothing else.
#[verifier::external_type_specification]
#[verifier::external_body]
pub struct ExFromUtf8Error(FromUtf8Error);

/// The text that Base64 with the URL-safe alphabet and padding gives for
/// `bytes`.
pub uninterp spec fn url_safe_encoding(bytes: Seq<u8>) -> Seq<char>;

/// The bytes of which `text` is the Base64 encoding with the URL-safe
/// alphabet and padding, and `None` where it is the encoding of none.
pub uninterp spec fn url_safe_decoding(text: Seq<u8>) -> Option<Seq<u8>>;

/// A character of the URL-safe Base64 alphabet, or the padding character.
pub open spec fn is_url_safe(c: char) -> bool {
    ||| 'A' <= c <= 'Z'
    ||| 'a' <= c <= 'z'
    ||| '0' <= c <= '9'
    ||| c == '-'
    ||| c == '_'
    ||| c == '='
}

/// A text of characters of the URL-safe Base64 alphabet and of padding.
pub open spec fn is_url_safe_text(text: Seq<char>) -> bool {
    forall|i: int| 0 <= i < text.len() ==> is_url_safe(#[trigger] text[i])
}

/// The length of the padded Base64 encoding of `n` bytes.
pub open spec fn encoded_len(n: nat) -> nat {
    if n % 3 == 0 {
        (n / 3) * 4
    } else {
        (n / 3) * 4 + 4
    }
}

/// Whether the library encodes `n` bytes: the length of what comes out
/// must fit the machine.
pub open spec fn encodable(n: nat) -> bool {
    (n / 3) * 4 + 4 <= usize::MAX
}

/// `Engine::encode` of `base64`, on its engine `URL_SAFE`. The result is
/// the encoding of the bytes: it holds characters of the engine's alphabet
/// and padding only, and decodes to the bytes again. The call panics where
/// the length of the encoding does not fit `usize`.
#[verifier::external_body]
fn url_safe_encode(bytes: &[u8]) -> (r: String)
    requires
        encoded_len(bytes@.len()) <= usize::MAX,
    ensures
        r@ == url_safe_encoding(bytes@),
        is_url_safe_text(r@),
        url_safe_decoding(encode_utf8(r@)) == Some(bytes@),
{
    URL_SAFE.encode(bytes)
}

/// `Engine::decode` of `base64`, on its engine `URL_SAFE`. The result is
/// the bytes that `text` encodes, or an error where it encodes none.
#[verifier::external_body]
fn url_safe_decode(text: &[u8]) -> (r: Result<Vec<u8>, DecodeError>)
    ensures
        match r {
            Ok(bytes) => url_safe_decoding(text@) == Some(bytes@),
            Err(_) => url_safe_decoding(text@) is None,
        },
{
    URL_SAFE.decode(text)
}

/// `String::from_utf8`: the text of which `bytes` is the UTF-8 encoding,
/// or an error where the bytes are not well-formed UTF-8.
#[verifier::external_body]
fn string_from_utf8(bytes: Vec<u8>) -> (r: Result<String, FromUtf8Error>)
    ensures
        match r {
            Ok(s) => valid_utf8(bytes@) && encode_utf8(s@) == bytes@,
            Err(_) => !valid_utf8(bytes@),
        },
{
    String::from_utf8(bytes)
}

/// What is known of every Base64 text that the library has made of
/// `bytes`: its characters are those of the alphabet and padding, and it
/// decodes to the bytes again.
pub open spec fn decodes_to(text: Seq<char>, bytes: Seq<u8>) -> bool {
    &&& is_url_safe_text(text)
    &&& url_safe_decoding(encode_utf8(text)) == Some(bytes)
}

/// What encoding `bytes` gives: their Base64 text, or an error where they
/// are too many.
pub open spec fn encoded(bytes: Seq<u8>) -> Result<Seq<char>, ErrorView> {
    if encodable(bytes.len()) {
        Ok(url_safe_encoding(bytes))
    } else {
        Err(ErrorView { context: "base64 encode error"@, detail: "input too long"@ })
    }
}

/// Base64-encodes bytes, with the URL-safe alphabet and with padding.
pub fn encode_bytes(bytes: &[u8]) -> (r: Result<String, AppError>)
    ensures
        outcome(r) == encoded(bytes@),
        r is Ok ==> decodes_to(r->Ok_0@, bytes@),
{
    if bytes.len() / 3 > (usize::MAX - 4) / 4 {
        return Err(AppError::from_str("base64 encode error", "input too long"));
    }
    Ok(url_safe_encode(bytes))
}

/// Decodes a Base64 text to the bytes that it encodes.
///
/// Fails, with the context `base64 decode error`, where the text is not
/// the encoding of any bytes.
pub fn decode_bytes(text: &str) -> (r: Result<Vec<u8>, AppError>)
    ensures
        match url_safe_decoding(encode_utf8(text@)) {
            Some(bytes) => r is Ok && r->Ok_0@ == bytes,
            None => r is Err && r->Err_0@.context == "base64 decode error"@,
        },
{
    match url_safe_decode(text.as_bytes()) {
        Ok(bytes) => Ok(bytes),
        Err(e) => Err(AppError::from_error("base64 decode error", e)),
    }
}

/// Reads bytes as UTF-8 text.
///
/// Fails, with the context `utf8 decode error`, where the bytes are not
/// well-formed UTF-8.
pub fn text_from_utf8(bytes: Vec<u8>) -> (r: Result<String, AppError>)
    ensures
        match r {
            Ok(s) => valid_utf8(bytes@) && s@ == decode_utf8(bytes@),
            Err(e) => !valid_utf8(bytes@) && e@.context == "utf8 decode error"@,
        },
{
    let ghost model = bytes@;
    match string_from_utf8(bytes) {
        Ok(s) => {
            proof {
                encode_utf8_decode_utf8(s@);
            }
            Ok(s)
        },
        Err(e) => Err(AppError::from_error("utf8 decode error", e)),
    }
}

/// What decoding `ciphertext` can give: the text whose UTF-8 bytes it
/// encodes, or an error whose context says what is wrong with it.
pub open spec fn decoded(ciphertext: Seq<char>, r: Result<Seq<char>, ErrorView>) -> bool {
    match url_safe_decoding(encode_utf8(ciphertext)) {
        None => r is Err && r->Err_0.context == "base64 decode error"@,
        Some(bytes) => if valid_utf8(bytes) {
            r == Ok::<Seq<char>, ErrorView>(decode_utf8(bytes))
        } else {
            r is Err && r->Err_0.context == "utf8 decode error"@
        },
    }
}

/// Base64-encodes the UTF-8 bytes of a text.
pub fn base64_encode(source: &str) -> (r: Result<String, AppError>)
    ensures
        outcome(r) == encoded(encode_utf8(source@)),
        r is Ok ==> decodes_to(r->Ok_0@, encode_utf8(source@)),
{
    encode_bytes(source.as_bytes())
}

/// Decodes the text whose UTF-8 bytes a Base64 text encodes.
pub fn base64_decode(source: &str) -> (r: Result<String, AppError>)
    ensures
        decoded(source@, outcome(r)),
{
    match decode_bytes(source) {
        Ok(bytes) => text_from_utf8(bytes),
        Err(e) => Err(e),
    }
}

/// A system that encodes in place of encrypting. It protects nothing.
pub struct InsecureEncryptionSystem;

impl EncryptionSystem for InsecureEncryptionSystem {
    /// The answer is the Base64 text of the plaintext, which decodes to it
    /// again, or the error for a plaintext that is too long.
    open spec fn encrypts(&self, plaintext: Seq<char>, r: Result<Seq<char>, ErrorView>) -> bool {
        &&& r == encoded(encode_utf8(plaintext))
        &&& r is Ok ==> decodes_to(r->Ok_0, encode_utf8(plaintext))
    }

    open spec fn decrypts(&self, ciphertext: Seq<char>, r: Result<Seq<char>, ErrorView>) -> bool {
        decoded(ciphertext, r)
    }

    fn encrypt(&self, plaintext: &str) -> (r: Result<String, AppError>) {
        base64_encode(plaintext)
    }

    fn decrypt(&self, ciphertext: &str) -> (r: Result<String, AppError>) {
        base64_decode(ciphertext)
    }
}

/// Whatever the system makes of a plaintext holds no marker: it can stand
/// as the content of a cipher span.
pub open spec fn seals<S: EncryptionSystem + ?Sized>(system: &S) -> bool {
    forall|plaintext: Seq<char>, ciphertext: Seq<char>| #[trigger]
        system.encrypts(plaintext, Ok(ciphertext)) ==> marker_free(ciphertext)
}

/// A Base64 text holds no marker.
pub proof fn lemma_url_safe_text_is_marker_free(text: Seq<char>)
    requires
        is_url_safe_text(text),
    ensures
        marker_free(text),
{
    assert forall|j: int| 0 <= j < text.len() implies (#[trigger] marker_at(text, j)) is None by {
        if marker_at(text, j) is Some {
            let m = marker_at(text, j)->Some_0;
            lemma_marker_shape(m);
            assert(text.subrange(j, j + m.text().len())[0] == text[j]);
            assert(is_url_safe(text[j]));
        }
    }
}

/// What the insecure system makes of a plaintext holds no marker.
pub proof fn lemma_insecure_seals()
    ensures
        seals(&InsecureEncryptionSystem),
{
    let system = InsecureEncryptionSystem;
    assert forall|plaintext: Seq<char>, ciphertext: Seq<char>| #[trigger]
        system.encrypts(plaintext, Ok(ciphertext)) implies marker_free(ciphertext) by {
        lemma_url_safe_text_is_marker_free(ciphertext);
    }
}

/// Decoding recovers every text from its encoding.
pub proof fn lemma_insecure_inverts()
    ensures
        inverts(&InsecureEncryptionSystem),
{
    let system = InsecureEncryptionSystem;
    assert forall|plaintext: Seq<char>, ciphertext: Seq<char>, r: Result<Seq<char>, ErrorView>|
        #![trigger system.encrypts(plaintext, Ok(ciphertext)), system.decrypts(ciphertext, r)]
        system.encrypts(plaintext, Ok(ciphertext)) && system.decrypts(
            ciphertext,
            r,
        ) implies r == Ok::<Seq<char>, ErrorView>(plaintext) by {
        encode_utf8_valid_utf8(plaintext);
        encode_utf8_decode_utf8(plaintext);
    }
}

/// A system that Base64-encodes in place of encrypting, for trying the
/// library out. It protects nothing.
pub fn new_insecure_encryption() -> (r: Result<Box<dyn EncryptionSystem>, AppError>)
    ensures
        r is Ok,
        forall|text: Seq<char>, o: Result<Seq<char>, ErrorView>| #[trigger]
            r->Ok_0.encrypts(text, o) == InsecureEncryptionSystem.encrypts(text, o),
        forall|text: Seq<char>, o: Result<Seq<char>, ErrorView>| #[trigger]
            r->Ok_0.decrypts(text, o) == InsecureEncryptionSystem.decrypts(text, o),
{
    Ok(Box::new(InsecureEncryptionSystem))
}

} // verus!
