//! Assignments: a key, an assignment operator and a value.
use vstd::prelude::*;
use vstd::string::*;
use vstd::utf8::encode_utf8;
use super::assignment_operator::{AssignmentOperator, assignment_operator_text, sp_assignment_operator};
use super::comment::{Comment, sp_comment};
use super::error::{Error, Severity, SpecError, errors_view, join_errors, no_errors, one_error};
use super::indices::{ArrayIndex, Index, array_index_text, index_text, sp_array_index, sp_index};
use super::input::{Parsed, SParsed, Src, span_range, wrap_range};
use super::lex::{comment_end, line_ending, opt_line_ending, skip_spaces, lemma_comment_end};
use super::needs::{NeedsBlock, SpecModClause, needs_text, sp_needs};
use super::operator::{Operator, operator_text, sp_operator};
use super::path::{Path, SpecPath, path_text, sp_path};
use super::range::{Ranged, opt_view};
use super::ASTPrint;
use crate::text::{is_alphanumeric, push_char, repeat_str, repeat_text, unicode_alphanumeric};

verus! {

/// Assignment operation
#[derive(Debug, PartialEq, Eq)]
pub struct KeyVal {
    /// Optional path to the variable
    pub path: Option<Ranged<Path>>,
    /// Optional operator
    pub operator: Option<Ranged<Operator>>,
    /// name of the variable
    pub key: Ranged<String>,
    /// Optional NEEDS block
    pub needs: Option<Ranged<NeedsBlock>>,
    /// Optional index
    pub index: Option<Ranged<Index>>,
    /// Optional array-index
    pub array_index: Option<Ranged<ArrayIndex>>,
    /// Spaces printed after the key, to line up the assignment operators of a block
    pub key_padding: Option<String>,
    /// The assignment operator between the variable and the value
    pub assignment_operator: Ranged<AssignmentOperator>,
    /// The value to use in the assignment
    pub val: Ranged<String>,
    /// Optional trailing comment
    pub comment: Option<Ranged<Comment>>,
}

/// A [`KeyVal`] with its parts taken by their views
pub struct SpecKeyVal {
    /// Optional path
    pub path: Option<Ranged<SpecPath>>,
    /// Optional operator
    pub operator: Option<Ranged<Operator>>,
    /// The key
    pub key: Ranged<Seq<char>>,
    /// Optional NEEDS block
    pub needs: Option<Ranged<Seq<Ranged<Seq<Ranged<SpecModClause>>>>>>,
    /// Optional index
    pub index: Option<Ranged<Index>>,
    /// Optional array index
    pub array_index: Option<Ranged<ArrayIndex>>,
    /// Optional padding after the key
    pub key_padding: Option<Seq<char>>,
    /// The assignment operator
    pub assignment_operator: Ranged<AssignmentOperator>,
    /// The value
    pub val: Ranged<Seq<char>>,
    /// Optional trailing comment
    pub comment: Option<Ranged<Seq<char>>>,
}

impl View for KeyVal {
    type V = SpecKeyVal;

    open spec fn view(&self) -> SpecKeyVal {
        SpecKeyVal {
            path: opt_view(self.path),
            operator: self.operator,
            key: self.key@,
            needs: opt_view(self.needs),
            index: self.index,
            array_index: self.array_index,
            key_padding: opt_view(self.key_padding),
            assignment_operator: self.assignment_operator,
            val: self.val@,
            comment: opt_view(self.comment),
        }
    }
}

/// The parts of a key: what comes before the assignment operator
pub struct KeyParts {
    /// Optional path, after `*`
    pub path: Option<Ranged<Path>>,
    /// Optional operator
    pub operator: Option<Ranged<Operator>>,
    /// The key itself
    pub key: Ranged<String>,
    /// Optional NEEDS block
    pub needs: Option<Ranged<NeedsBlock>>,
    /// Optional index
    pub index: Option<Ranged<Index>>,
    /// Optional array index
    pub array_index: Option<Ranged<ArrayIndex>>,
}

/// [`KeyParts`] taken by their views
pub struct SpecKeyParts {
    /// Optional path
    pub path: Option<Ranged<SpecPath>>,
    /// Optional operator
    pub operator: Option<Ranged<Operator>>,
    /// The key
    pub key: Ranged<Seq<char>>,
    /// Optional NEEDS block
    pub needs: Option<Ranged<Seq<Ranged<Seq<Ranged<SpecModClause>>>>>>,
    /// Optional index
    pub index: Option<Ranged<Index>>,
    /// Optional array index
    pub array_index: Option<Ranged<ArrayIndex>>,
}

impl View for KeyParts {
    type V = SpecKeyParts;

    open spec fn view(&self) -> SpecKeyParts {
        SpecKeyParts {
            path: opt_view(self.path),
            operator: self.operator,
            key: self.key@,
            needs: opt_view(self.needs),
            index: self.index,
            array_index: self.array_index,
        }
    }
}

/// A character that is part of a key on its own
pub open spec fn is_key_char(c: char) -> bool {
    unicode_alphanumeric(c) || c == '#' || c == '_' || c == '.' || c == '?' || c == '(' || c == ')'
}

/// One step through a key at `k`, in the part of the text that ends at `d`: a key character;
/// `-`, `+` or `*` with the character after it unless that is `=`; or `/` with the character
/// after it unless that is `/` or `=`
pub open spec fn key_step(s: Seq<char>, k: int, d: int) -> Option<int> {
    if !(0 <= k < d) {
        None
    } else if is_key_char(s[k]) {
        Some(k + 1)
    } else if s[k] == '-' || s[k] == '+' || s[k] == '*' {
        if k + 1 < d {
            if s[k + 1] != '=' {
                Some(k + 2)
            } else {
                None
            }
        } else {
            Some(k + 1)
        }
    } else if s[k] == '/' {
        if k + 1 < d && s[k + 1] != '/' && s[k + 1] != '=' {
            Some(k + 2)
        } else {
            None
        }
    } else {
        None
    }
}

/// Where a key that cannot start at `k` is reported to fail
pub open spec fn key_step_failure(s: Seq<char>, k: int, d: int) -> int {
    if 0 <= k < d && s[k] == '/' {
        k + 1
    } else {
        k
    }
}

/// End of the steps through a key from `k` on
pub open spec fn key_run(s: Seq<char>, k: int, d: int) -> int
    decreases d - k,
{
    match key_step(s, k, d) {
        Some(n) => if k < n <= d {
            key_run(s, n, d)
        } else {
            k
        },
        None => k,
    }
}

/// End of a key from `p` on, where words of the key may follow after spaces and tabs
pub open spec fn key_words(s: Seq<char>, p: int, d: int) -> int
    decreases d - p,
{
    let t = skip_spaces(s, p, d);
    if key_step(s, t, d) is Some {
        let n = key_run(s, t, d);
        if p < n <= d {
            key_words(s, n, d)
        } else {
            p
        }
    } else {
        p
    }
}

/// End of a key that starts at `k`, if one does
pub open spec fn key_end(s: Seq<char>, k: int, d: int) -> Option<int> {
    if key_step(s, k, d) is Some {
        Some(key_words(s, key_run(s, k, d), d))
    } else {
        None
    }
}

/// What may come before a key: an optional `*` and path, and an optional operator. Gives them,
/// where the key starts, and the errors.
pub open spec fn sp_key_prefix(s: Seq<char>, i: int, d: int) -> (Option<Ranged<SpecPath>>, Option<Ranged<Operator>>, int, Seq<SpecError>) {
    let (path, p1, errs1) = if i < d && s[i] == '*' {
        let (pth, q, errs) = sp_path(s, i + 1, d);
        (Some(pth), q, errs)
    } else {
        (None, i, seq![])
    };
    let (operator, p2) = match sp_operator(s, p1, d) {
        SParsed::Done(q, o, _) => (Some(o), q),
        _ => (None, p1),
    };
    (path, operator, p2, errs1)
}

/// The parts of a key between offsets `i` and `d`: an optional `*` and path, an optional
/// operator, the key, and optional NEEDS block, index and array index, in that order, which
/// must take up the whole of it
pub open spec fn sp_key_parts(s: Seq<char>, i: int, d: int) -> SParsed<SpecKeyParts> {
    let (path, operator, p2, errs1) = sp_key_prefix(s, i, d);
    match key_end(s, p2, d) {
        None => SParsed::Failed(key_step_failure(s, p2, d)),
        Some(k) => {
            let (needs, p4, errs2) = match sp_needs(s, k, d) {
                SParsed::Done(q, n, errs) => (Some(n), q, errs),
                _ => (None, k, seq![]),
            };
            match sp_index(s, p4, d) {
                SParsed::Panicked => SParsed::Panicked,
                ix => {
                    let (index, p5) = match ix {
                        SParsed::Done(q, x, _) => (Some(x), q),
                        _ => (None, p4),
                    };
                    let (array_index, p6, errs3) = match sp_array_index(s, p5, d) {
                        SParsed::Done(q, a, errs) => (Some(a), q, errs),
                        _ => (None, p5, seq![]),
                    };
                    if p6 != d {
                        SParsed::Failed(p6)
                    } else {
                        SParsed::Done(
                            p6,
                            SpecKeyParts {
                                path,
                                operator,
                                key: Ranged { inner: s.subrange(p2, k), range: wrap_range(s, p2, k) },
                                needs,
                                index,
                                array_index,
                            },
                            errs1 + errs2 + errs3,
                        )
                    }
                },
            }
        },
    }
}

/// The error reported for a key that does not parse at `f`
pub open spec fn key_error(s: Seq<char>, f: int, d: int) -> SpecError {
    SpecError {
        severity: Severity::Error,
        range: span_range(s, f, d),
        source: s.subrange(f, d),
        message: "failed to parse key. Unexpected `"@ + s.subrange(f, d) + seq!['`'],
        context: None,
    }
}

/// The key between offsets `i` and `d`, with the errors to report. A key that does not parse
/// is kept whole as the key, and reported. `None` when a number in it does not fit its type.
pub open spec fn sp_proper_key(s: Seq<char>, i: int, d: int) -> Option<(SpecKeyParts, Seq<SpecError>)> {
    match sp_key_parts(s, i, d) {
        SParsed::Done(_, kp, errs) => Some((kp, errs)),
        SParsed::Failed(f) => Some(
            (
                SpecKeyParts {
                    path: None,
                    operator: None,
                    key: Ranged { inner: s.subrange(i, d), range: span_range(s, i, d) },
                    needs: None,
                    index: None,
                    array_index: None,
                },
                seq![key_error(s, f, d)],
            ),
        ),
        SParsed::Panicked => None,
    }
}

/// Where the text that could be a key stops: an assignment operator (after spaces), a comment,
/// a brace or a line ending
pub open spec fn key_stop_at(s: Seq<char>, p: int, e: int) -> bool {
    sp_assignment_operator(s, skip_spaces(s, p, e), e) is Done || comment_end(s, p, e) is Some || (0 <= p
        < e && (s[p] == '{' || s[p] == '}' || s[p] == '\n' || s[p] == '\r'))
}

/// The first offset at or after `p` where a key stops, if there is one before `e`
pub open spec fn key_stop(s: Seq<char>, p: int, e: int) -> Option<int>
    decreases e - p,
{
    if key_stop_at(s, p, e) {
        Some(p)
    } else if p < e {
        key_stop(s, p + 1, e)
    } else {
        None
    }
}

/// Where a value stops: a comment, or spaces followed by `}` or a line ending
pub open spec fn val_stop_at(s: Seq<char>, v: int, e: int) -> bool {
    comment_end(s, v, e) is Some || ({
        let t = skip_spaces(s, v, e);
        0 <= t < e && (s[t] == '}' || s[t] == '\r' || s[t] == '\n')
    })
}

/// The first offset at or after `v` where a value stops, if there is one before `e`
pub open spec fn val_stop(s: Seq<char>, v: int, e: int) -> Option<int>
    decreases e - v,
{
    if val_stop_at(s, v, e) {
        Some(v)
    } else if v < e {
        val_stop(s, v + 1, e)
    } else {
        None
    }
}

/// An assignment at offset `i`: the text up to where a key stops is read as the key; then the
/// assignment operator between optional spaces, the value up to a comment, a `}` or a line
/// ending, an optional comment, and the line ending. The errors are those of the key.
pub open spec fn sp_key_val(s: Seq<char>, i: int, e: int) -> SParsed<Ranged<SpecKeyVal>> {
    match key_stop(s, i, e) {
        None => SParsed::Failed(i),
        Some(d) => match sp_proper_key(s, i, d) {
            None => SParsed::Panicked,
            Some((kp, key_errs)) => {
                let a = skip_spaces(s, d, e);
                match sp_assignment_operator(s, a, e) {
                    SParsed::Done(b, op, _) => {
                        let v0 = skip_spaces(s, b, e);
                        match val_stop(s, v0, e) {
                            None => SParsed::Failed(i),
                            Some(v) => {
                                let (comment, c) = match sp_comment(s, v, e) {
                                    SParsed::Done(q, cm, _) => (Some(cm), q),
                                    _ => (None, v),
                                };
                                let t = skip_spaces(s, c, e);
                                let p = if line_ending(s, t, e) is Some {
                                    t
                                } else {
                                    c
                                };
                                let end = opt_line_ending(s, p, e);
                                SParsed::Done(
                                    end,
                                    Ranged {
                                        inner: SpecKeyVal {
                                            path: kp.path,
                                            operator: kp.operator,
                                            key: kp.key,
                                            needs: kp.needs,
                                            index: kp.index,
                                            array_index: kp.array_index,
                                            key_padding: None,
                                            assignment_operator: op,
                                            val: Ranged { inner: s.subrange(v0, v), range: wrap_range(s, v0, v) },
                                            comment,
                                        },
                                        range: wrap_range(s, i, end),
                                    },
                                    key_errs,
                                )
                            },
                        }
                    },
                    _ => SParsed::Failed(i),
                }
            },
        },
    }
}

/// How the part of an assignment before its padding is written
pub open spec fn key_val_left_side(kv: SpecKeyVal) -> Seq<char> {
    (match kv.path {
        Some(p) => seq!['*'] + path_text(p.inner),
        None => seq![],
    }) + (match kv.operator {
        Some(o) => operator_text(o.inner),
        None => seq![],
    }) + kv.key.inner + (match kv.needs {
        Some(n) => needs_text(n.inner),
        None => seq![],
    }) + (match kv.index {
        Some(x) => index_text(x.inner),
        None => seq![],
    }) + (match kv.array_index {
        Some(a) => array_index_text(a.inner),
        None => seq![],
    })
}

/// An assignment printed at nesting depth `depth`, on a line of its own
pub open spec fn key_val_print(kv: SpecKeyVal, depth: nat, indentation: Seq<char>, line_ending: Seq<char>) -> Seq<char> {
    repeat_text(indentation, depth) + key_val_left_side(kv) + (match kv.key_padding {
        Some(p) => p,
        None => seq![],
    }) + seq![' '] + assignment_operator_text(kv.assignment_operator.inner) + seq![' '] + kv.val.inner
        + (match kv.comment {
        Some(c) => c.inner,
        None => seq![],
    }) + line_ending
}

impl Src {
    /// One step through a key at `k`
    pub fn key_step(&self, k: usize, d: usize) -> (r: Option<usize>)
        requires
            d <= self@.len(),
        ensures
            key_step(self@, k as int, d as int) == (match r {
                Some(x) => Some(x as int),
                None => None::<int>,
            }),
            r matches Some(n) ==> k < n <= d,
    {
        if k >= d {
            return None;
        }
        let c = self.at(k);
        if is_alphanumeric(c) || c == '#' || c == '_' || c == '.' || c == '?' || c == '(' || c == ')' {
            Some(k + 1)
        } else if c == '-' || c == '+' || c == '*' {
            if k + 1 < d {
                if self.at(k + 1) != '=' {
                    Some(k + 2)
                } else {
                    None
                }
            } else {
                Some(k + 1)
            }
        } else if c == '/' {
            if k + 1 < d && self.at(k + 1) != '/' && self.at(k + 1) != '=' {
                Some(k + 2)
            } else {
                None
            }
        } else {
            None
        }
    }

    /// End of the steps through a key from `k` on
    pub fn key_run(&self, k: usize, d: usize) -> (r: usize)
        requires
            k <= d <= self@.len(),
        ensures
            r == key_run(self@, k as int, d as int),
            k <= r <= d,
    {
        let mut p = k;
        loop
            invariant
                k <= p <= d <= self@.len(),
                key_run(self@, k as int, d as int) == key_run(self@, p as int, d as int),
            decreases d - p,
        {
            match self.key_step(p, d) {
                Some(n) => {
                    p = n;
                },
                None => {
                    return p;
                },
            }
        }
    }

    /// End of a key that starts at `k`, if one does
    pub fn key_end(&self, k: usize, d: usize) -> (r: Option<usize>)
        requires
            k <= d <= self@.len(),
        ensures
            key_end(self@, k as int, d as int) == (match r {
                Some(x) => Some(x as int),
                None => None::<int>,
            }),
            r matches Some(n) ==> k < n <= d,
    {
        let n = match self.key_step(k, d) {
            None => {
                return None;
            },
            Some(n) => n,
        };
        let mut p = self.key_run(n, d);
        loop
            invariant
                k < p <= d <= self@.len(),
                key_end(self@, k as int, d as int) == Some(key_words(self@, p as int, d as int)),
            decreases d - p,
        {
            let t = self.skip_spaces(p, d);
            if self.key_step(t, d).is_some() {
                let n = self.key_run(t, d);
                if p < n {
                    p = n;
                } else {
                    return Some(p);
                }
            } else {
                return Some(p);
            }
        }
    }

    /// Whether a key stops at `p`
    pub fn key_stop_at(&self, p: usize, e: usize) -> (r: bool)
        requires
            self.wf(),
            p <= e <= self@.len(),
        ensures
            r == key_stop_at(self@, p as int, e as int),
    {
        let a = self.skip_spaces(p, e);
        let op = AssignmentOperator::parse(self, a, e);
        let is_op = match op {
            Parsed::Done(_, _, _) => true,
            _ => false,
        };
        is_op || self.comment_end(p, e).is_some() || (p < e && (self.at(p) == '{' || self.at(p) == '}'
            || self.at(p) == '\n' || self.at(p) == '\r'))
    }

    /// The first offset at or after `p` where a key stops
    pub fn key_stop(&self, p: usize, e: usize) -> (r: Option<usize>)
        requires
            self.wf(),
            p <= e <= self@.len(),
        ensures
            key_stop(self@, p as int, e as int) == (match r {
                Some(x) => Some(x as int),
                None => None::<int>,
            }),
            r matches Some(j) ==> p <= j <= e,
    {
        let mut k = p;
        loop
            invariant
                self.wf(),
                p <= k <= e <= self@.len(),
                key_stop(self@, p as int, e as int) == key_stop(self@, k as int, e as int),
            decreases e - k,
        {
            if self.key_stop_at(k, e) {
                return Some(k);
            }
            if k < e {
                k = k + 1;
            } else {
                return None;
            }
        }
    }

    /// Whether a value stops at `v`
    pub fn val_stop_at(&self, v: usize, e: usize) -> (r: bool)
        requires
            v <= e <= self@.len(),
        ensures
            r == val_stop_at(self@, v as int, e as int),
    {
        let t = self.skip_spaces(v, e);
        self.comment_end(v, e).is_some() || (t < e && (self.at(t) == '}' || self.at(t) == '\r' || self.at(t)
            == '\n'))
    }

    /// The first offset at or after `v` where a value stops
    pub fn val_stop(&self, v: usize, e: usize) -> (r: Option<usize>)
        requires
            v <= e <= self@.len(),
        ensures
            val_stop(self@, v as int, e as int) == (match r {
                Some(x) => Some(x as int),
                None => None::<int>,
            }),
            r matches Some(j) ==> v <= j <= e,
    {
        let mut k = v;
        loop
            invariant
                v <= k <= e <= self@.len(),
                val_stop(self@, v as int, e as int) == val_stop(self@, k as int, e as int),
            decreases e - k,
        {
            if self.val_stop_at(k, e) {
                return Some(k);
            }
            if k < e {
                k = k + 1;
            } else {
                return None;
            }
        }
    }
}

/// Parses what may come before a key
fn parse_key_prefix(src: &Src, i: usize, d: usize) -> (r: (Option<Ranged<Path>>, Option<Ranged<Operator>>, usize, Vec<Error>))
    requires
        src.wf(),
        i <= d <= src@.len(),
    ensures
        sp_key_prefix(src@, i as int, d as int) == (opt_view(r.0), r.1, r.2 as int, errors_view(r.3@)),
        i <= r.2 <= d,
{
    let (path, p1, errs1): (Option<Ranged<Path>>, usize, Vec<Error>) = if i < d && src.at(i) == '*' {
        let (pth, q, errs) = Path::parse(src, i + 1, d);
        (Some(pth), q, errs)
    } else {
        (None, i, no_errors())
    };
    let (operator, p2) = match Operator::parse(src, p1, d) {
        Parsed::Done(q, o, _) => (Some(o), q),
        _ => (None, p1),
    };
    (path, operator, p2, errs1)
}

/// Parses the parts of a key between offsets `i` and `d`
fn parse_key_parts(src: &Src, i: usize, d: usize) -> (r: Parsed<KeyParts>)
    requires
        src.wf(),
        i <= d <= src@.len(),
    ensures
        r@ == sp_key_parts(src@, i as int, d as int),
        r matches Parsed::Failed(f) ==> i <= f <= d,
{
    let (path, operator, p2, errs1) = parse_key_prefix(src, i, d);
    let k = match src.key_end(p2, d) {
        None => {
            let f = if p2 < d && src.at(p2) == '/' { p2 + 1 } else { p2 };
            return Parsed::Failed(f);
        },
        Some(k) => k,
    };
    let (needs, p4, errs2) = match NeedsBlock::parse(src, k, d) {
        Parsed::Done(q, n, errs) => (Some(n), q, errs),
        _ => (None, k, no_errors()),
    };
    let (index, p5) = match Index::parse(src, p4, d) {
        Parsed::Panicked => {
            return Parsed::Panicked;
        },
        Parsed::Done(q, x, _) => (Some(x), q),
        Parsed::Failed(_) => (None, p4),
    };
    let (array_index, p6, errs3) = match ArrayIndex::parse(src, p5, d) {
        Parsed::Done(q, a, errs) => (Some(a), q, errs),
        _ => (None, p5, no_errors()),
    };
    if p6 != d {
        return Parsed::Failed(p6);
    }
    let key = Ranged { inner: src.text(p2, k), range: src.wrap(p2, k) };
    let errs = join_errors(join_errors(errs1, errs2), errs3);
    Parsed::Done(p6, KeyParts { path, operator, key, needs, index, array_index }, errs)
}

/// Parses the key between offsets `i` and `d`; `None` when a number in it does not fit its type
fn parse_proper_key(src: &Src, i: usize, d: usize) -> (r: Option<(KeyParts, Vec<Error>)>)
    requires
        src.wf(),
        i <= d <= src@.len(),
    ensures
        sp_proper_key(src@, i as int, d as int) == (match r {
            Some(x) => Some((x.0@, errors_view(x.1@))),
            None => None,
        }),
{
    match parse_key_parts(src, i, d) {
        Parsed::Done(_, kp, errs) => Some((kp, errs)),
        Parsed::Failed(f) => {
            let rest = src.text(f, d);
            let mut message = String::from_str("failed to parse key. Unexpected `");
            message.append(rest.as_str());
            push_char(&mut message, '`');
            assert(message@ =~= "failed to parse key. Unexpected `"@ + src@.subrange(f as int, d as int) + seq!['`']);
            let err = Error { severity: Severity::Error, range: src.span(f, d), source: rest, message, context: None };
            let kp = KeyParts {
                path: None,
                operator: None,
                key: Ranged { inner: src.text(i, d), range: src.span(i, d) },
                needs: None,
                index: None,
                array_index: None,
            };
            Some((kp, one_error(err)))
        },
        Parsed::Panicked => None,
    }
}

impl KeyVal {
    /// Parses an assignment at offset `i`
    pub fn parse(src: &Src, i: usize, e: usize) -> (r: Parsed<Ranged<KeyVal>>)
        requires
            src.wf(),
            i <= e <= src@.len(),
        ensures
            r@ == sp_key_val(src@, i as int, e as int),
            r matches Parsed::Done(q, _, _) ==> i < q <= e,
    {
        let d = match src.key_stop(i, e) {
            None => {
                return Parsed::Failed(i);
            },
            Some(d) => d,
        };
        let (kp, key_errs) = match parse_proper_key(src, i, d) {
            None => {
                return Parsed::Panicked;
            },
            Some(x) => x,
        };
        let a = src.skip_spaces(d, e);
        let (b, op) = match AssignmentOperator::parse(src, a, e) {
            Parsed::Done(b, op, _) => (b, op),
            _ => {
                return Parsed::Failed(i);
            },
        };
        let v0 = src.skip_spaces(b, e);
        let v = match src.val_stop(v0, e) {
            None => {
                return Parsed::Failed(i);
            },
            Some(v) => v,
        };
        let (comment, c) = match Comment::parse(src, v, e) {
            Parsed::Done(q, cm, _) => (Some(cm), q),
            _ => (None, v),
        };
        let t = src.skip_spaces(c, e);
        let p = if src.line_ending(t, e).is_some() {
            t
        } else {
            c
        };
        let end = src.opt_line_ending(p, e);
        let val = Ranged { inner: src.text(v0, v), range: src.wrap(v0, v) };
        let kv = KeyVal {
            path: kp.path,
            operator: kp.operator,
            key: kp.key,
            needs: kp.needs,
            index: kp.index,
            array_index: kp.array_index,
            key_padding: None,
            assignment_operator: op,
            val,
            comment,
        };
        Parsed::Done(end, Ranged { inner: kv, range: src.wrap(i, end) }, key_errs)
    }

    /// The part of the assignment before its padding: path, operator, key, NEEDS block,
    /// index and array index
    pub fn left_side(&self) -> (r: String)
        ensures
            r@ == key_val_left_side(self@),
    {
        let mut r = String::new();
        match &self.path {
            Some(p) => {
                push_char(&mut r, '*');
                let t = p.inner.to_string();
                r.append(t.as_str());
            },
            None => {},
        }
        match &self.operator {
            Some(o) => {
                let t = o.inner.to_string();
                r.append(t.as_str());
            },
            None => {},
        }
        r.append(self.key.inner.as_str());
        match &self.needs {
            Some(n) => {
                let t = n.inner.to_string();
                r.append(t.as_str());
            },
            None => {},
        }
        match &self.index {
            Some(x) => {
                let t = x.inner.to_string();
                r.append(t.as_str());
            },
            None => {},
        }
        match &self.array_index {
            Some(a) => {
                let t = a.inner.to_string();
                r.append(t.as_str());
            },
            None => {},
        }
        assert(r@ =~= key_val_left_side(self@));
        r
    }

    /// Pads the key with spaces so that the left side takes up `n` bytes
    pub fn set_key_padding(&mut self, n: usize)
        requires
            encode_utf8(key_val_left_side(old(self)@)).len() <= n,
        ensures
            final(self)@ == (SpecKeyVal {
                key_padding: Some(repeat_text(seq![' '], (n - encode_utf8(key_val_left_side(old(self)@)).len()) as nat)),
                ..old(self)@
            }),
    {
        let left = self.left_side();
        let ls = left.as_str();
        assert(ls@ == left@);
        let len = ls.len();
        proof {
            reveal_strlit(" ");
            assert(" "@ =~= seq![' ']);
        }
        let pad = repeat_str(" ", n - len);
        self.key_padding = Some(pad);
    }

}

/// An assignment is printed on a line of its own, indented `depth` times
impl ASTPrint for KeyVal {
    open spec fn print_nesting(&self) -> nat {
        0
    }

    open spec fn printed(&self, depth: nat, indentation: Seq<char>, line_ending: Seq<char>, should_collapse: Option<bool>) -> Seq<char> {
        key_val_print(self@, depth, indentation, line_ending)
    }

    fn ast_print(&self, depth: usize, indentation: &str, line_ending: &str, should_collapse: Option<bool>) -> (r: String) {
        let mut r = repeat_str(indentation, depth);
        let left = self.left_side();
        r.append(left.as_str());
        match &self.key_padding {
            Some(p) => r.append(p.as_str()),
            None => {},
        }
        push_char(&mut r, ' ');
        let op = self.assignment_operator.inner.to_string();
        r.append(op.as_str());
        push_char(&mut r, ' ');
        r.append(self.val.inner.as_str());
        match &self.comment {
            Some(c) => r.append(c.inner.text.as_str()),
            None => {},
        }
        r.append(line_ending);
        assert(r@ =~= key_val_print(self@, depth as nat, indentation@, line_ending@));
        r
    }
}

} // verus!
