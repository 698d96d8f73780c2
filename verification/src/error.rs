//! The error value that every fallible operation of the library returns.

use vstd::prelude::*;
use vstd::string::*;

verus! {

/// The model of an [`AppError`]: its two texts as character sequences.
pub struct ErrorView {
    pub context: Seq<char>,
    pub detail: Seq<char>,
}

/// A failure, described by a short label of the operation that was being
/// attempted and a detail message.
#[derive(Debug, PartialEq, Clone)]
pub struct AppError {
    context: String,
    detail: String,
}

impl View for AppError {
    type V = ErrorView;

    closed spec fn view(&self) -> ErrorView {
        ErrorView { context: self.context@, detail: self.detail@ }
    }
}

/// The text that [`AppError::message`] renders for an error.
pub open spec fn message_text(e: ErrorView) -> Seq<char> {
    "error: context: "@ + e.context + " detail: "@ + e.detail
}

impl AppError {
    /// An error with the given context label and detail message.
    pub fn from_str(context: &str, detail: &str) -> (r: Self)
        ensures
            r@.context == context@,
            r@.detail == detail@,
    {
        Self { context: context.to_owned(), detail: detail.to_owned() }
    }

    /// An error with the given context label whose detail is the rendering
    /// of `e`, as its `Display` implementation writes it.
    pub fn from_error<E: std::fmt::Display>(context: &str, e: E) -> (r: Self)
        ensures
            r@.context == context@,
            exists|s: String| #[trigger] to_string_from_display_ensures::<E>(&e, s) && r@.detail == s@,
    {
        let detail = e.to_string();
        Self { context: context.to_owned(), detail }
    }

    /// The label of the operation that failed.
    pub fn context(&self) -> (r: &String)
        ensures
            r@ == self@.context,
    {
        &self.context
    }

    /// The detail message.
    pub fn detail(&self) -> (r: &String)
        ensures
            r@ == self@.detail,
    {
        &self.detail
    }

    /// The error as one line of text.
    pub fn message(&self) -> (r: String)
        ensures
            r@ == message_text(self@),
    {
        let mut r = "error: context: ".to_owned();
        r.append(self.context.as_str());
        r.append(" detail: ");
        r.append(self.detail.as_str());
        r
    }
}

} // verus!
