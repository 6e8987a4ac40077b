//! The operator between a key and its value.
use vstd::prelude::*;
use vstd::string::*;
use super::error::no_errors;
use super::input::{Parsed, SParsed, Src, wrap_range};
use super::range::Ranged;

verus! {

/// Assignment operator in a key-val
#[derive(Debug, Clone, Copy, PartialEq, Eq, Structural)]
pub enum AssignmentOperator {
    /// Default assignment, `=`
    Assign,
    /// Multiply the variable by the value, `*=`
    Multiply,
    /// Divide the variable by the value, `/=`
    Divide,
    /// Increment the variable by the value, `+=`
    Add,
    /// Decrement the variable by the value, `-=`
    Subtract,
    /// Raise the variable by the value, `!=`
    Power,
    /// Regex operation, `^=`
    RegexReplace,
}

impl Default for AssignmentOperator {
    fn default() -> (r: Self)
        ensures
            r == AssignmentOperator::Assign,
    {
        AssignmentOperator::Assign
    }
}

impl View for AssignmentOperator {
    type V = AssignmentOperator;

    open spec fn view(&self) -> AssignmentOperator {
        *self
    }
}

/// How an assignment operator is written
pub open spec fn assignment_operator_text(op: AssignmentOperator) -> Seq<char> {
    match op {
        AssignmentOperator::Assign => seq!['='],
        AssignmentOperator::Multiply => seq!['*', '='],
        AssignmentOperator::Divide => seq!['/', '='],
        AssignmentOperator::Add => seq!['+', '='],
        AssignmentOperator::Subtract => seq!['-', '='],
        AssignmentOperator::Power => seq!['!', '='],
        AssignmentOperator::RegexReplace => seq!['^', '='],
    }
}

/// `c` followed by `=` at offset `i`
pub open spec fn op_eq_at(s: Seq<char>, i: int, e: int, c: char) -> bool {
    i + 1 < e && s[i] == c && s[i + 1] == '='
}

/// An assignment operator at offset `i`, the two-character ones tried first
pub open spec fn sp_assignment_operator(s: Seq<char>, i: int, e: int) -> SParsed<
    Ranged<AssignmentOperator>,
> {
    let found = if op_eq_at(s, i, e, '+') {
        Some(AssignmentOperator::Add)
    } else if op_eq_at(s, i, e, '-') {
        Some(AssignmentOperator::Subtract)
    } else if op_eq_at(s, i, e, '*') {
        Some(AssignmentOperator::Multiply)
    } else if op_eq_at(s, i, e, '/') {
        Some(AssignmentOperator::Divide)
    } else if op_eq_at(s, i, e, '!') {
        Some(AssignmentOperator::Power)
    } else if op_eq_at(s, i, e, '^') {
        Some(AssignmentOperator::RegexReplace)
    } else if i < e && s[i] == '=' {
        Some(AssignmentOperator::Assign)
    } else {
        None
    };
    match found {
        Some(op) => {
            let j = i + assignment_operator_text(op).len();
            SParsed::Done(j, Ranged { inner: op, range: wrap_range(s, i, j) }, seq![])
        },
        None => SParsed::Failed(i),
    }
}

/// An assignment operator is read back from its written form, however the text goes on
pub proof fn lemma_assignment_operator_round_trip(s: Seq<char>, i: int, e: int, op: AssignmentOperator)
    requires
        0 <= i,
        e <= s.len(),
        i + assignment_operator_text(op).len() <= e,
        s.subrange(i, i + assignment_operator_text(op).len()) == assignment_operator_text(op),
    ensures
        sp_assignment_operator(s, i, e) == SParsed::Done(
            i + assignment_operator_text(op).len(),
            Ranged {
                inner: op,
                range: wrap_range(s, i, i + assignment_operator_text(op).len()),
            },
            Seq::<super::error::SpecError>::empty(),
        ),
{
    let t = assignment_operator_text(op);
    assert(s[i] == t[0]);
    if t.len() == 2 {
        assert(s[i + 1] == t[1]);
    }
}

/// The assignment operator written as `t`: `=`, or one of `* / + - ! ^` followed by `=`
pub open spec fn assignment_operator_from_text(t: Seq<char>) -> Option<AssignmentOperator> {
    if t.len() == 1 && t[0] == '=' {
        Some(AssignmentOperator::Assign)
    } else if t.len() == 2 && t[1] == '=' {
        if t[0] == '*' {
            Some(AssignmentOperator::Multiply)
        } else if t[0] == '/' {
            Some(AssignmentOperator::Divide)
        } else if t[0] == '+' {
            Some(AssignmentOperator::Add)
        } else if t[0] == '-' {
            Some(AssignmentOperator::Subtract)
        } else if t[0] == '!' {
            Some(AssignmentOperator::Power)
        } else if t[0] == '^' {
            Some(AssignmentOperator::RegexReplace)
        } else {
            None
        }
    } else {
        None
    }
}

/// Reading the written form of an assignment operator gives the operator back, and a text that
/// is read as an assignment operator is that operator's written form
pub proof fn lemma_assignment_operator_text_round_trip(op: AssignmentOperator, t: Seq<char>)
    ensures
        assignment_operator_from_text(assignment_operator_text(op)) == Some(op),
        assignment_operator_from_text(t) == Some(op) ==> assignment_operator_text(op) == t,
{
    if assignment_operator_from_text(t) == Some(op) {
        if t.len() == 1 {
            assert(t =~= seq!['=']);
        } else {
            assert(t =~= seq![t[0], '=']);
        }
    }
}

/// A text that is not the written form of an assignment operator
#[derive(Debug, Clone, Copy, PartialEq, Eq)]
pub struct ParseAssignmentError;

impl AssignmentOperator {
    /// Reads an assignment operator from its written form
    pub fn try_from_text(text: &str) -> (r: Result<AssignmentOperator, ParseAssignmentError>)
        ensures
            match r {
                Ok(op) => assignment_operator_from_text(text@) == Some(op),
                Err(_) => assignment_operator_from_text(text@) is None,
            },
    {
        let n = text.unicode_len();
        if n == 1 && text.get_char(0) == '=' {
            return Ok(AssignmentOperator::Assign);
        }
        if n == 2 && text.get_char(1) == '=' {
            let c = text.get_char(0);
            if c == '*' {
                return Ok(AssignmentOperator::Multiply);
            } else if c == '/' {
                return Ok(AssignmentOperator::Divide);
            } else if c == '+' {
                return Ok(AssignmentOperator::Add);
            } else if c == '-' {
                return Ok(AssignmentOperator::Subtract);
            } else if c == '!' {
                return Ok(AssignmentOperator::Power);
            } else if c == '^' {
                return Ok(AssignmentOperator::RegexReplace);
            }
        }
        Err(ParseAssignmentError)
    }

    /// How the operator is written
    pub fn to_string(&self) -> (r: String)
        ensures
            r@ == assignment_operator_text(*self),
    {
        let t = match self {
            AssignmentOperator::Assign => "=",
            AssignmentOperator::Multiply => "*=",
            AssignmentOperator::Divide => "/=",
            AssignmentOperator::Add => "+=",
            AssignmentOperator::Subtract => "-=",
            AssignmentOperator::Power => "!=",
            AssignmentOperator::RegexReplace => "^=",
        };
        proof {
            reveal_strlit("=");
            reveal_strlit("*=");
            reveal_strlit("/=");
            reveal_strlit("+=");
            reveal_strlit("-=");
            reveal_strlit("!=");
            reveal_strlit("^=");
        }
        String::from_str(t)
    }

    /// Parses an assignment operator at offset `i`
    pub fn parse(src: &Src, i: usize, e: usize) -> (r: Parsed<Ranged<AssignmentOperator>>)
        requires
            src.wf(),
            i <= e <= src@.len(),
        ensures
            r@ == sp_assignment_operator(src@, i as int, e as int),
            r matches Parsed::Done(q, _, _) ==> i < q <= e,
    {
        let two = i < e && i + 1 < e && src.at(i + 1) == '=';
        let found = if two && src.at(i) == '+' {
            Some(AssignmentOperator::Add)
        } else if two && src.at(i) == '-' {
            Some(AssignmentOperator::Subtract)
        } else if two && src.at(i) == '*' {
            Some(AssignmentOperator::Multiply)
        } else if two && src.at(i) == '/' {
            Some(AssignmentOperator::Divide)
        } else if two && src.at(i) == '!' {
            Some(AssignmentOperator::Power)
        } else if two && src.at(i) == '^' {
            Some(AssignmentOperator::RegexReplace)
        } else if i < e && src.at(i) == '=' {
            Some(AssignmentOperator::Assign)
        } else {
            None
        };
        match found {
            Some(op) => {
                let j = if matches!(op, AssignmentOperator::Assign) { i + 1 } else { i + 2 };
                Parsed::Done(j, Ranged { inner: op, range: src.wrap(i, j) }, no_errors())
            },
            None => Parsed::Failed(i),
        }
    }
}

} // verus!
