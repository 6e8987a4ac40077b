//! The operator in front of a node or a key.
use vstd::prelude::*;
use vstd::string::*;
use super::error::no_errors;
use super::input::{Parsed, SParsed, Src, wrap_range};
use super::range::Ranged;

verus! {

/// The different kinds of operations that can be done
#[derive(Debug, Clone, Copy, PartialEq, Eq, Structural)]
pub enum Operator {
    /// No operator
    NoOperator,
    /// Edit an existing node/variable
    Edit,
    /// Edit-or-create a node/variable
    EditOrCreate,
    /// Create a node/value if not found
    CreateIfNotFound,
    /// Copy an existing node/variable
    Copy,
    /// Delete a node/variable
    Delete,
    /// Delete a node/variable, written with `-`
    DeleteAlt,
    /// Rename a node. Not allowed on top level nodes
    Rename,
}

impl Default for Operator {
    fn default() -> (r: Self)
        ensures
            r == Operator::NoOperator,
    {
        Operator::NoOperator
    }
}

impl View for Operator {
    type V = Operator;

    open spec fn view(&self) -> Operator {
        *self
    }
}

/// How an operator is written
pub open spec fn operator_text(op: Operator) -> Seq<char> {
    match op {
        Operator::NoOperator => seq![],
        Operator::Edit => seq!['@'],
        Operator::EditOrCreate => seq!['%'],
        Operator::CreateIfNotFound => seq!['&'],
        Operator::Copy => seq!['+'],
        Operator::Delete => seq!['!'],
        Operator::DeleteAlt => seq!['-'],
        Operator::Rename => seq!['|'],
    }
}

/// The operator a character stands for
pub open spec fn operator_of(c: char) -> Option<Operator> {
    if c == '@' {
        Some(Operator::Edit)
    } else if c == '%' {
        Some(Operator::EditOrCreate)
    } else if c == '+' {
        Some(Operator::Copy)
    } else if c == '!' {
        Some(Operator::Delete)
    } else if c == '-' {
        Some(Operator::DeleteAlt)
    } else if c == '&' {
        Some(Operator::CreateIfNotFound)
    } else if c == '|' {
        Some(Operator::Rename)
    } else {
        None
    }
}

/// An operator at offset `i`: one of `@ % + ! - & |`
pub open spec fn sp_operator(s: Seq<char>, i: int, e: int) -> SParsed<Ranged<Operator>> {
    if i < e && operator_of(s[i]) is Some {
        SParsed::Done(
            i + 1,
            Ranged { inner: operator_of(s[i]).unwrap(), range: wrap_range(s, i, i + 1) },
            seq![],
        )
    } else {
        SParsed::Failed(i)
    }
}

/// Reading a written operator gives it back, and writing a read operator gives back the
/// character it was read from
pub proof fn lemma_operator_round_trip(op: Operator, c: char)
    ensures
        op != Operator::NoOperator ==> operator_text(op).len() == 1 && operator_of(operator_text(op)[0])
            == Some(op),
        operator_of(c) matches Some(o) ==> operator_text(o) == seq![c],
{
}

/// The operator written as `t`: the empty text for no operator, else one of `@ % & + ! - |`
pub open spec fn operator_from_text(t: Seq<char>) -> Option<Operator> {
    if t.len() == 0 {
        Some(Operator::NoOperator)
    } else if t.len() == 1 {
        operator_of(t[0])
    } else {
        None
    }
}

/// Reading the written form of an operator gives the operator back, and a text that is read as
/// an operator is that operator's written form
pub proof fn lemma_operator_text_round_trip(op: Operator, t: Seq<char>)
    ensures
        operator_from_text(operator_text(op)) == Some(op),
        operator_from_text(t) == Some(op) ==> operator_text(op) == t,
{
    if operator_from_text(t) == Some(op) && t.len() == 1 {
        assert(t =~= seq![t[0]]);
    }
}

/// A text that is not the written form of an operator
#[derive(Debug, Clone, PartialEq, Eq)]
pub struct OperatorParseError {
    /// The text that was read
    pub text: String,
}

/// The operator a character stands for
fn operator_of_char(c: char) -> (r: Option<Operator>)
    ensures
        r == operator_of(c),
{
    if c == '@' {
        Some(Operator::Edit)
    } else if c == '%' {
        Some(Operator::EditOrCreate)
    } else if c == '+' {
        Some(Operator::Copy)
    } else if c == '!' {
        Some(Operator::Delete)
    } else if c == '-' {
        Some(Operator::DeleteAlt)
    } else if c == '&' {
        Some(Operator::CreateIfNotFound)
    } else if c == '|' {
        Some(Operator::Rename)
    } else {
        None
    }
}

impl Operator {
    /// Reads an operator from its written form; the error holds the text when it is none
    pub fn try_from_text(text: &str) -> (r: Result<Operator, OperatorParseError>)
        ensures
            match r {
                Ok(op) => operator_from_text(text@) == Some(op),
                Err(e) => operator_from_text(text@) is None && e.text@ == text@,
            },
    {
        let n = text.unicode_len();
        if n == 0 {
            return Ok(Operator::NoOperator);
        }
        if n == 1 {
            if let Some(op) = operator_of_char(text.get_char(0)) {
                return Ok(op);
            }
        }
        Err(OperatorParseError { text: String::from_str(text) })
    }

    /// How the operator is written
    pub fn to_string(&self) -> (r: String)
        ensures
            r@ == operator_text(*self),
    {
        let t = match self {
            Operator::NoOperator => "",
            Operator::Edit => "@",
            Operator::EditOrCreate => "%",
            Operator::CreateIfNotFound => "&",
            Operator::Copy => "+",
            Operator::Delete => "!",
            Operator::DeleteAlt => "-",
            Operator::Rename => "|",
        };
        proof {
            reveal_strlit("");
            reveal_strlit("@");
            reveal_strlit("%");
            reveal_strlit("&");
            reveal_strlit("+");
            reveal_strlit("!");
            reveal_strlit("-");
            reveal_strlit("|");
        }
        String::from_str(t)
    }

    /// Parses an operator at offset `i`
    pub fn parse(src: &Src, i: usize, e: usize) -> (r: Parsed<Ranged<Operator>>)
        requires
            src.wf(),
            i <= e <= src@.len(),
        ensures
            r@ == sp_operator(src@, i as int, e as int),
            r matches Parsed::Done(q, _, _) ==> i < q <= e,
    {
        if i < e {
            if let Some(op) = operator_of_char(src.at(i)) {
                return Parsed::Done(i + 1, Ranged { inner: op, range: src.wrap(i, i + 1) }, no_errors());
            }
        }
        Parsed::Failed(i)
    }
}

} // verus!
