//! What an atomic file session decides: where the temporary file goes,
//! what it is called, and when to give up looking for a free name.
//!
//! A new version of a file is written to a temporary file beside it and
//! moved into place when it is complete. This module names the file and
//! counts the attempts. It touches no file.

use crate::error::{AppError, ErrorView};
use crate::text::{
    byte_offset, lemma_boundary_around_ascii, lemma_encode_len, lemma_occurrence_in_bytes,
    same_text, split_text,
};
use rand::rngs::ThreadRng;
use rand::Rng;
use vstd::prelude::*;
use vstd::string::*;
use vstd::utf8::*;

verus! {

/// The path that stands for the console: standard input where a file is
/// read, standard output where one is written.
pub const STDIO: &'static str = "-";

/// The permission bits of a temporary file that stands for the console.
pub const CONSOLE_MODE: u32 = 0o600;

/// How often a name for the temporary file is tried before the search is
/// given up.
pub const MAX_ATTEMPTS: u32 = 50;

/// The number of random characters in the name of a temporary file.
pub const SUFFIX_LEN: usize = 7;

/// The characters of which the random part of a name is made.
pub open spec fn suffix_alphabet() -> Seq<char> {
    "ABCDEFGHIJKLMNOPQRSTUVWXYZ0123456789"@
}

/// The random part of the name of a temporary file: seven characters of
/// the alphabet.
pub open spec fn is_suffix(s: Seq<char>) -> bool {
    &&& s.len() == SUFFIX_LEN
    &&& forall|i: int| 0 <= i < s.len() ==> suffix_alphabet().contains(#[trigger] s[i])
}

/// The path of a temporary file in the directory `dir`, for the file
/// `name`, with the random part `suffix`.
pub open spec fn temp_path(dir: Seq<char>, suffix: Seq<char>, name: Seq<char>) -> Seq<char> {
    dir + "_cipher_"@ + suffix + "_"@ + name
}

/// The error of a search that found no free name.
pub open spec fn no_free_name() -> ErrorView {
    ErrorView { context: "output"@, detail: "Failed to create temp file"@ }
}

/// Whether `path` stands for the console.
pub fn is_console(path: &str) -> (r: bool)
    ensures
        r == (path@ == STDIO@),
{
    same_text(path, STDIO)
}

proof fn lemma_slash_byte()
    ensures
        encode_utf8(seq!['/']) == seq![0x2fu8],
{
    let s = seq!['/'];
    assert(is_ascii_chars(s));
    is_ascii_chars_encode_utf8(s);
    assert(encode_utf8(s) =~= seq![0x2fu8]);
}

/// Splits a path into the directory, with the slash that ends it, and the
/// name of the file. A path without a slash is a name in no directory.
pub fn split_path<'a>(path: &'a str) -> (r: (&'a str, &'a str))
    ensures
        path@ == r.0@ + r.1@,
        !r.1@.contains('/'),
        r.0@.len() == 0 || r.0@.last() == '/',
{
    let bytes = path.as_bytes();
    let mut end: usize = bytes.len();
    while end > 0 && bytes[end - 1] != 0x2f
        invariant
            end <= bytes@.len(),
            forall|k: int| end <= k < bytes@.len() ==> bytes@[k] != 0x2f,
        decreases end,
    {
        end -= 1;
    }
    proof {
        encode_utf8_valid_utf8(path@);
        if end > 0 {
            lemma_boundary_around_ascii(bytes@, end - 1);
        }
    }
    let (dir, name) = split_text(path, end);
    proof {
        lemma_slash_byte();
        if name@.contains('/') {
            let j = choose|j: int| 0 <= j < name@.len() && name@[j] == '/';
            assert(name@.subrange(j, j + 1) =~= seq!['/']);
            lemma_occurrence_in_bytes(name@, j, seq!['/']);
            let at = byte_offset(name@, j);
            assert(name.spec_bytes().subrange(at, at + 1)[0] == 0x2f);
            assert(bytes@[end + at] == 0x2f);
        }
        lemma_encode_len(dir@);
        if end > 0 {
            let cut = end - 1;
            let dir_bytes = dir.spec_bytes();
            encode_utf8_valid_utf8(dir@);
            lemma_boundary_around_ascii(dir_bytes, cut);
            valid_utf8_split(dir_bytes, cut);
            decode_utf8_split(dir_bytes, cut);
            encode_utf8_decode_utf8(dir@);
            encode_utf8_decode_utf8(seq!['/']);
            assert(dir_bytes.subrange(cut, dir_bytes.len() as int) =~= seq![0x2fu8]);
            assert(dir@ =~= decode_utf8(dir_bytes.subrange(0, cut)) + seq!['/']);
        }
    }
    (dir, name)
}

/// Where the temporary file for `path` goes: its permission bits, its
/// directory and the name that it is made for.
///
/// For the console the bits are fixed and so is the name. For a file the
/// temporary file stands in the same directory, and the bits are `None`:
/// they are those of the file at `path`.
pub fn get_temp_file_specs<'a>(path: &'a str) -> (r: (Option<u32>, &'a str, &'a str))
    ensures
        path@ == STDIO@ ==> r.0 == Some(CONSOLE_MODE) && r.1@ == ""@ && r.2@ == "temp.txt"@,
        path@ != STDIO@ ==> {
            &&& r.0 is None
            &&& path@ == r.1@ + r.2@
            &&& !r.2@.contains('/')
            &&& (r.1@.len() == 0 || r.1@.last() == '/')
        },
{
    if is_console(path) {
        (Some(CONSOLE_MODE), "", "temp.txt")
    } else {
        let (dir, name) = split_path(path);
        (None, dir, name)
    }
}

/// `rand::rngs::ThreadRng`, the random number generator of a thread: a
/// type whose inside is not looked into.
#[verifier::external_type_specification]
#[verifier::external_body]
pub struct ExThreadRng(ThreadRng);

/// `rand::rng`: the random number generator of the current thread.
#[verifier::external_body]
fn thread_rng() -> ThreadRng {
    rand::rng()
}

/// `Rng::random_range` of `rand`, on the range from zero up to `bound`,
/// which it leaves out: some number of that range. It panics on an empty
/// range.
#[verifier::external_body]
fn random_below(rng: &mut ThreadRng, bound: usize) -> (r: usize)
    requires
        bound > 0,
    ensures
        r < bound,
{
    rng.random_range(0..bound)
}

/// Seven random characters, each a capital letter or a digit.
pub fn random_chars() -> (r: String)
    ensures
        is_suffix(r@),
{
    let alphabet = "ABCDEFGHIJKLMNOPQRSTUVWXYZ0123456789";
    proof {
        reveal_strlit("ABCDEFGHIJKLMNOPQRSTUVWXYZ0123456789");
    }
    let mut rng = thread_rng();
    let mut answer = String::new();
    let mut count: usize = 0;
    while count < SUFFIX_LEN
        invariant
            count <= SUFFIX_LEN,
            alphabet@ == suffix_alphabet(),
            alphabet@.len() == 36,
            alphabet.is_ascii(),
            answer@.len() == count,
            forall|i: int| 0 <= i < answer@.len() ==> suffix_alphabet().contains(#[trigger] answer@[i]),
        decreases SUFFIX_LEN - count,
    {
        let pick = random_below(&mut rng, 36);
        let ghost before = answer@;
        answer.append(alphabet.substring_ascii(pick, pick + 1));
        proof {
            assert(answer@ =~= before.push(alphabet@[pick as int]));
        }
        count += 1;
    }
    answer
}

/// The path of a temporary file in the directory `dir`, for the file
/// `name`, with the random part `suffix`.
pub fn temp_file_path(dir: &str, suffix: &str, name: &str) -> (r: String)
    ensures
        r@ == temp_path(dir@, suffix@, name@),
{
    let mut path = dir.to_owned();
    path.append("_cipher_");
    path.append(suffix);
    path.append("_");
    path.append(name);
    path
}

/// The search for a free name for the temporary file: it counts the paths
/// that it has proposed.
pub struct TempFileSearch {
    attempts: u32,
}

impl TempFileSearch {
    /// The number of paths that the search has proposed.
    pub closed spec fn attempts(&self) -> nat {
        self.attempts as nat
    }

    /// A search that has proposed nothing yet.
    pub fn new() -> (search: Self)
        ensures
            search.attempts() == 0,
    {
        TempFileSearch { attempts: 0 }
    }

    /// The next path to try, for the file `name` in the directory `dir`.
    /// The caller asks again where a file stands at that path already.
    ///
    /// Up to fifty paths are proposed, each with a fresh random part.
    /// After that the search has failed.
    pub fn next_candidate(&mut self, dir: &str, name: &str) -> (r: Result<String, AppError>)
        ensures
            match r {
                Ok(path) => {
                    &&& old(self).attempts() < MAX_ATTEMPTS
                    &&& final(self).attempts() == old(self).attempts() + 1
                    &&& exists|suffix: Seq<char>|
                        is_suffix(suffix) && path@ == #[trigger] temp_path(dir@, suffix, name@)
                },
                Err(e) => {
                    &&& old(self).attempts() >= MAX_ATTEMPTS
                    &&& final(self).attempts() == old(self).attempts()
                    &&& e@ == no_free_name()
                },
            },
    {
        if self.attempts >= MAX_ATTEMPTS {
            return Err(AppError::from_str("output", "Failed to create temp file"));
        }
        self.attempts = self.attempts + 1;
        let suffix = random_chars();
        Ok(temp_file_path(dir, suffix.as_str(), name))
    }
}

} // verus!
