//! Comments: `//` and the rest of the line.
use vstd::prelude::*;
use vstd::string::*;
use super::input::{Parsed, SParsed, Src, wrap_range};
use super::lex::{comment_end, skip_spaces, lemma_comment_end};
use super::range::Ranged;
use super::error::no_errors;
use super::ASTPrint;
use crate::text::{repeat_str, repeat_text};

verus! {

/// A comment in the file. Includes the leading whitespace and `//`
#[derive(Debug, Clone, PartialEq, Eq)]
pub struct Comment {
    /// Text of the comment, including leading whitespace and `//`
    pub text: String,
}

impl View for Comment {
    type V = Seq<char>;

    open spec fn view(&self) -> Seq<char> {
        self.text@
    }
}

/// A comment at offset `i`: spaces, `//`, and the rest of the line up to the line ending.
/// The comment's text is all of it, the leading spaces included.
pub open spec fn sp_comment(s: Seq<char>, i: int, e: int) -> SParsed<Ranged<Seq<char>>> {
    match comment_end(s, i, e) {
        Some(j) => SParsed::Done(j, Ranged { inner: s.subrange(i, j), range: wrap_range(s, i, j) }, seq![]),
        None => SParsed::Failed(skip_spaces(s, i, e)),
    }
}

/// A comment printed at nesting depth `depth`: the indentation, the text, the line ending
pub open spec fn comment_print(text: Seq<char>, depth: nat, indentation: Seq<char>, line_ending: Seq<char>) -> Seq<char> {
    repeat_text(indentation, depth) + text + line_ending
}

impl Comment {
    /// Parses a comment at offset `i`
    pub fn parse(src: &Src, i: usize, e: usize) -> (r: Parsed<Ranged<Comment>>)
        requires
            src.wf(),
            i <= e <= src@.len(),
        ensures
            r@ == sp_comment(src@, i as int, e as int),
            r matches Parsed::Done(j, _, _) ==> i < j <= e,
    {
        proof {
            lemma_comment_end(src@, i as int, e as int);
        }
        match src.comment_end(i, e) {
            Some(j) => Parsed::Done(j, Ranged { inner: Comment { text: src.text(i, j) }, range: src.wrap(i, j) }, no_errors()),
            None => Parsed::Failed(src.skip_spaces(i, e)),
        }
    }

}

/// A comment is printed on a line of its own, indented `depth` times
impl ASTPrint for Comment {
    open spec fn print_nesting(&self) -> nat {
        0
    }

    open spec fn printed(&self, depth: nat, indentation: Seq<char>, line_ending: Seq<char>, should_collapse: Option<bool>) -> Seq<char> {
        comment_print(self@, depth, indentation, line_ending)
    }

    fn ast_print(&self, depth: usize, indentation: &str, line_ending: &str, should_collapse: Option<bool>) -> (r: String) {
        let mut r = repeat_str(indentation, depth);
        r.append(self.text.as_str());
        r.append(line_ending);
        r
    }
}

} // verus!
