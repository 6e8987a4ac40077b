//! Errors reported while parsing.
use vstd::prelude::*;
use super::range::{Range, Ranged};

verus! {

/// Represents the severity of the error
#[derive(Debug, Clone, Copy, PartialEq, Eq, Structural)]
pub enum Severity {
    /// This issue will make the cfg not work
    Error,
    /// This is probably wrong
    Warning,
    /// Something to know about
    Info,
    /// Help for other issues
    Hint,
}

/// Error containing a text span and an error message to display.
#[derive(Debug, Clone, PartialEq, Eq)]
pub struct Error {
    /// The severity of the error
    pub severity: Severity,
    /// The Range covered by the error
    pub range: Range,
    /// The source string producing the error
    pub source: String,
    /// The error message
    pub message: String,
    /// Holds the context for the error, if applicable
    pub context: Option<Ranged<String>>,
}

/// What an [`Error`] holds, with its texts as character sequences
pub struct SpecError {
    /// The severity of the error
    pub severity: Severity,
    /// The Range covered by the error
    pub range: Range,
    /// The source text producing the error
    pub source: Seq<char>,
    /// The error message
    pub message: Seq<char>,
    /// The context of the error, if any
    pub context: Option<Ranged<Seq<char>>>,
}

impl View for Error {
    type V = SpecError;

    open spec fn view(&self) -> SpecError {
        SpecError {
            severity: self.severity,
            range: self.range,
            source: self.source@,
            message: self.message@,
            context: match self.context {
                Some(c) => Some(Ranged { inner: c.inner@, range: c.range }),
                None => None,
            },
        }
    }
}

/// The views of a sequence of errors
pub open spec fn errors_view(v: Seq<Error>) -> Seq<SpecError> {
    v.map_values(|e: Error| e@)
}

/// The views of joined error lists are the joined views
pub proof fn lemma_errors_view_add(a: Seq<Error>, b: Seq<Error>)
    ensures
        errors_view(a + b) == errors_view(a) + errors_view(b),
{
    assert(errors_view(a + b) =~= errors_view(a) + errors_view(b));
}

/// Joins two lists of errors
pub fn join_errors(mut a: Vec<Error>, mut b: Vec<Error>) -> (r: Vec<Error>)
    ensures
        errors_view(r@) == errors_view(a@) + errors_view(b@),
{
    proof {
        lemma_errors_view_add(a@, b@);
    }
    a.append(&mut b);
    a
}

/// A list of one error
pub fn one_error(x: Error) -> (r: Vec<Error>)
    ensures
        errors_view(r@) == seq![x@],
{
    let mut v: Vec<Error> = Vec::new();
    v.push(x);
    assert(errors_view(v@) =~= seq![x@]);
    v
}

/// An empty list of errors
pub fn no_errors() -> (r: Vec<Error>)
    ensures
        errors_view(r@) == Seq::<SpecError>::empty(),
        r@.len() == 0,
{
    let v: Vec<Error> = Vec::new();
    assert(errors_view(v@) =~= Seq::<SpecError>::empty());
    v
}

} // verus!

verus! {

/// How an error is written: its message, what was found, and where
pub open spec fn error_text(e: SpecError) -> Seq<char> {
    e.message + ", found '"@ + e.source + "' at "@ + super::range::range_text(e.range)
}

impl Error {
    /// How the error is written. Its range must not end on a line before it starts.
    pub fn to_string(&self) -> (r: String)
        requires
            self.range.start.line <= self.range.end.line,
        ensures
            r@ == error_text(self@),
    {
        let mut r = self.message.clone();
        r.append(", found '");
        r.append(self.source.as_str());
        r.append("' at ");
        let t = self.range.to_string();
        r.append(t.as_str());
        r
    }
}

} // verus!
