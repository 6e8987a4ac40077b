//! Types of the config syntax tree, together with the parser that builds them.
use vstd::prelude::*;

pub mod range;
pub mod error;
pub mod input;
pub mod lex;
pub mod operator;
pub mod assignment_operator;
pub mod indices;
pub mod pass;
pub mod needs;
pub mod path;
pub mod comment;
pub mod has;
pub mod key_val;
pub mod node;
pub mod document;

pub use range::{Position, Range, Ranged};
pub use error::{Error, Severity, SpecError};
pub use operator::{Operator, OperatorParseError};
pub use assignment_operator::{AssignmentOperator, ParseAssignmentError};
pub use indices::{ArrayIndex, Index};
pub use pass::Pass;
pub use needs::{ModClause, NeedsBlock, OrClause};
pub use path::{Path, PathSegment, PathStart};
pub use comment::Comment;
pub use has::{HasBlock, HasPredicate, MatchType};
pub use key_val::KeyVal;
pub use node::{Node, NodeItem};
pub use document::{DocItem, Document, doc_nesting, doc_ok, sp_source_file, source_file};
use input::Src;
use error::{errors_view, no_errors};

verus! {

/// Types that are pretty-printed as part of the formatter
pub trait ASTPrint {
    /// How deep the value nests: printing it at depth `d` reaches depth `d` plus this
    spec fn print_nesting(&self) -> nat;

    /// The text that `ast_print` gives for the value
    spec fn printed(&self, depth: nat, indentation: Seq<char>, line_ending: Seq<char>, should_collapse: Option<bool>) -> Seq<char>;

    /// Pretty-prints the value at nesting depth `depth`, ready to be written out. `indentation`
    /// is one level of indentation, `should_collapse` says whether a node with a single
    /// assignment is written on one line (`None`: as it was written)
    fn ast_print(&self, depth: usize, indentation: &str, line_ending: &str, should_collapse: Option<bool>) -> (r: String)
        requires
            depth + self.print_nesting() <= usize::MAX,
        ensures
            r@ == self.printed(depth as nat, indentation@, line_ending@, should_collapse);
}

/// Holds the state of the parser, to allow for context aware parsing
#[derive(Clone, Copy, Debug, PartialEq, Eq)]
pub struct ParserState {
    /// Indicates if the current node is on the top level
    pub top_level: bool,
}

impl Default for ParserState {
    /// A parse starts on the top level
    fn default() -> (r: Self)
        ensures
            r.top_level,
    {
        ParserState { top_level: true }
    }
}

/// Parses a text into a document, with the errors reported along the way. The text must be
/// short enough for its positions to fit a `u32`, and free of numbers that overflow their type
/// (the parse would panic on them; see [`try_parse`]).
pub fn parse(source: &str) -> (r: (Document, Vec<Error>))
    requires
        source@.len() < 0xffff_fff0,
        sp_source_file(source@) is Some,
    ensures
        sp_source_file(source@) == Some((r.0@, errors_view(r.1@))),
        doc_nesting(r.0@) <= source@.len(),
        doc_ok(r.0@),
{
    let src = Src::new(source);
    match source_file(&src) {
        Some(x) => x,
        None => (Document { statements: Vec::new() }, no_errors()),
    }
}

/// Parses a text into a document, with the errors reported along the way; `None` when a number
/// in it does not fit its type
pub fn try_parse(source: &str) -> (r: Option<(Document, Vec<Error>)>)
    requires
        source@.len() < 0xffff_fff0,
    ensures
        sp_source_file(source@) == (match r {
            Some(x) => Some((x.0@, errors_view(x.1@))),
            None => None,
        }),
        r matches Some(x) ==> doc_nesting(x.0@) <= source@.len(),
        r matches Some(x) ==> doc_ok(x.0@),
{
    let src = Src::new(source);
    source_file(&src)
}

} // verus!
