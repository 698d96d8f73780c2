//! Selective protection of spans inside a plain-text document.
//!
//! An author marks spans of a text as secure. The library parses the text
//! into an ordered sequence of typed segments, replaces secure spans with
//! ciphertext for storage, restores them for reading or editing, and
//! serialises the segments back to text. Every function states what it
//! computes over mathematical models of its data, and Verus proves it.
//!
//! - [`marker`] and [`scan`]: the four markers, and the search for the
//!   leftmost one.
//! - [`segment`] and [`parse`]: the document, and how a text is read into
//!   one.
//! - [`encryption`]: the capability that encrypts and decrypts, and a
//!   stand-in that encodes.
//! - [`transform`] and [`serialize`]: encrypt, rewind and decrypt, and the
//!   two ways to write a document.
//! - [`command`], [`edit`] and [`session`]: the commands from text to
//!   text, the steps of an edit session, and the naming of temporary
//!   files.
//! - [`laws`]: what holds between all of these.
//! - [`error`] and [`text`]: the error value, and texts as UTF-8.

pub mod error;
pub mod text;
pub mod marker;
pub mod scan;
pub mod segment;
pub mod parse;
pub mod encryption;
pub mod transform;
pub mod serialize;
pub mod session;
pub mod command;
pub mod edit;
pub mod laws;
