//! Indices selecting among several matches, and indices into array values.
use vstd::prelude::*;
use vstd::string::*;
use super::error::{Error, SpecError, errors_view, join_errors, no_errors, one_error};
use super::input::{Parsed, SParsed, Src, expect_error, wrap_range};
use super::range::Ranged;
use crate::text::{digits_value, int_text, is_digit, push_char, push_int};
use super::lex::run_of;

verus! {

/// Selects from multiple matching objects
#[derive(Debug, Clone, Copy, PartialEq, Eq, Structural)]
pub enum Index {
    /// Operate on all matches, `,*`
    All,
    /// Integer match to operate on, `,i`
    Number(i32),
}

impl View for Index {
    type V = Index;

    open spec fn view(&self) -> Index {
        *self
    }
}

/// index in value of variable to operate on
#[derive(Debug, Clone, Copy, PartialEq, Eq, Structural)]
pub struct ArrayIndex {
    /// Index to operate on, all if `None` (from `*`)
    pub index: Option<i32>,
    /// Char separating the values in the array. `,` if not specified
    pub separator: Option<char>,
}

impl View for ArrayIndex {
    type V = ArrayIndex;

    open spec fn view(&self) -> ArrayIndex {
        *self
    }
}

/// How an index is written
pub open spec fn index_text(i: Index) -> Seq<char> {
    match i {
        Index::All => seq![',', '*'],
        Index::Number(n) => seq![','] + int_text(n as int),
    }
}

/// How an array index is written
pub open spec fn array_index_text(a: ArrayIndex) -> Seq<char> {
    seq!['['] + match a.index {
        Some(n) => int_text(n as int),
        None => seq!['*'],
    } + match a.separator {
        Some(c) => seq![',', c],
        None => seq![],
    } + seq![']']
}

/// End of the run of ASCII digits at `i`
pub open spec fn digit_run(s: Seq<char>, i: int, e: int) -> int {
    run_of(s, i, e, |c: char| is_digit(c))
}

/// The largest value of an `i32`
pub open spec fn i32_max() -> int {
    0x7fff_ffff
}

/// An index at offset `i`: `,` then `*` or digits. A minus sign may stand before the digits; the
/// number is read from the digits alone. Digits beyond what an `i32` holds make the parser panic.
pub open spec fn sp_index(s: Seq<char>, i: int, e: int) -> SParsed<Ranged<Index>> {
    if !(i < e && s[i] == ',') {
        SParsed::Failed(i)
    } else if i + 1 < e && s[i + 1] == '*' {
        SParsed::Done(i + 2, Ranged { inner: Index::All, range: wrap_range(s, i, i + 2) }, seq![])
    } else {
        let k = if i + 1 < e && s[i + 1] == '-' { i + 2 } else { i + 1 };
        let d = digit_run(s, k, e);
        if d == k {
            SParsed::Failed(k)
        } else if digits_value(s.subrange(k, d)) > i32_max() {
            SParsed::Panicked
        } else {
            SParsed::Done(
                d,
                Ranged {
                    inner: Index::Number(digits_value(s.subrange(k, d)) as i32),
                    range: wrap_range(s, i, d),
                },
                seq![],
            )
        }
    }
}

/// The index part of an array index at `j`: `*`, or digits that fit an `i32`
pub open spec fn sp_array_index_number(s: Seq<char>, j: int, e: int) -> (Option<Option<i32>>, int, Seq<SpecError>) {
    let d = digit_run(s, j, e);
    if j < e && s[j] == '*' {
        (Some(None), j + 1, seq![])
    } else if d > j && digits_value(s.subrange(j, d)) <= i32_max() {
        (Some(Some(digits_value(s.subrange(j, d)) as i32)), d, seq![])
    } else {
        (None, j, seq![expect_error(s, j, e, "Expected index, or *"@)])
    }
}

/// The separator part of an array index at `p`: `,` and a character other than `]`
pub open spec fn sp_array_index_separator(s: Seq<char>, p: int, e: int) -> (Option<char>, int, Seq<SpecError>) {
    if p < e && s[p] == ',' {
        if p + 1 < e && s[p + 1] != ']' {
            (Some(s[p + 1]), p + 2, seq![])
        } else {
            (None, p + 1, seq![expect_error(s, p + 1, e, "Expected char between `,` and closing `]`"@)])
        }
    } else {
        (None, p, seq![])
    }
}

/// A closing bracket at `p`, or the error reporting it missing
pub open spec fn sp_close_bracket(s: Seq<char>, p: int, e: int) -> (int, Seq<SpecError>) {
    if p < e && s[p] == ']' {
        (p + 1, seq![])
    } else {
        (p, seq![expect_error(s, p, e, "Expected closing `]`"@)])
    }
}

/// An array index at offset `i`: `[`, an index (`*` or digits), an optional `,` and separator
/// character, and `]`; a missing part is reported and parsing goes on
pub open spec fn sp_array_index(s: Seq<char>, i: int, e: int) -> SParsed<Ranged<ArrayIndex>> {
    if !(i < e && s[i] == '[') {
        SParsed::Failed(i)
    } else {
        let (index, p, errs1) = sp_array_index_number(s, i + 1, e);
        let (separator, q, errs2) = sp_array_index_separator(s, p, e);
        let (end, errs3) = sp_close_bracket(s, q, e);
        SParsed::Done(
            end,
            Ranged {
                inner: ArrayIndex {
                    index: match index {
                        Some(Some(n)) => Some(n),
                        _ => None,
                    },
                    separator,
                },
                range: wrap_range(s, i, end),
            },
            errs1 + errs2 + errs3,
        )
    }
}

impl Src {
    /// End of the run of ASCII digits at `i`
    pub fn digit_run(&self, i: usize, e: usize) -> (r: usize)
        requires
            i <= e <= self@.len(),
        ensures
            r == digit_run(self@, i as int, e as int),
            i <= r <= e,
    {
        let mut k = i;
        while k < e && '0' <= self.at(k) && self.at(k) <= '9'
            invariant
                i <= k <= e <= self@.len(),
                digit_run(self@, i as int, e as int) == digit_run(self@, k as int, e as int),
            decreases e - k,
        {
            k = k + 1;
        }
        proof {
            super::lex::lemma_run_of(self@, i as int, e as int, |c: char| is_digit(c));
        }
        k
    }

    /// The value of the digits between `i` and `d`, if it fits an `i32`
    pub fn digits_i32(&self, i: usize, d: usize) -> (r: Option<i32>)
        requires
            i <= d <= self@.len(),
            forall|k: int| i <= k < d ==> is_digit(#[trigger] self@[k]),
        ensures
            r matches Some(n) ==> digits_value(self@.subrange(i as int, d as int)) <= i32_max()
                && n == digits_value(self@.subrange(i as int, d as int)),
            r is None ==> digits_value(self@.subrange(i as int, d as int)) > i32_max(),
    {
        let mut acc: i64 = 0;
        let mut k = i;
        while k < d
            invariant
                i <= k <= d <= self@.len(),
                forall|m: int| i <= m < d ==> is_digit(#[trigger] self@[m]),
                acc == digits_value(self@.subrange(i as int, k as int)),
                acc <= i32_max(),
            decreases d - k,
        {
            let c = self.at(k);
            let v = (c as u32 - '0' as u32) as i64;
            assert(self@.subrange(i as int, k + 1).drop_last() == self@.subrange(i as int, k as int));
            let next = acc * 10 + v;
            if next > 0x7fff_ffff {
                proof {
                    crate::text::lemma_digits_value_prefix(self@.subrange(i as int, d as int), k + 1 - i);
                    assert(self@.subrange(i as int, d as int).take(k + 1 - i) == self@.subrange(i as int, k + 1));
                }
                return None;
            }
            acc = next;
            k = k + 1;
        }
        Some(acc as i32)
    }
}

proof fn lemma_digit_run_digits(s: Seq<char>, i: int, e: int)
    requires
        i <= e,
    ensures
        i <= digit_run(s, i, e) <= e,
        forall|k: int| i <= k < digit_run(s, i, e) ==> is_digit(#[trigger] s[k]),
    decreases e - i,
{
    if i < e && is_digit(s[i]) {
        lemma_digit_run_digits(s, i + 1, e);
    }
}

impl Index {
    /// How the index is written
    pub fn to_string(&self) -> (r: String)
        ensures
            r@ == index_text(*self),
    {
        let mut r = String::new();
        push_char(&mut r, ',');
        match self {
            Index::All => push_char(&mut r, '*'),
            Index::Number(n) => push_int(&mut r, *n as i64),
        }
        r
    }

    /// Parses an index at offset `i`
    pub fn parse(src: &Src, i: usize, e: usize) -> (r: Parsed<Ranged<Index>>)
        requires
            src.wf(),
            i <= e <= src@.len(),
        ensures
            r@ == sp_index(src@, i as int, e as int),
            r matches Parsed::Done(q, _, _) ==> i < q <= e,
    {
        if !(i < e && src.at(i) == ',') {
            return Parsed::Failed(i);
        }
        if i + 1 < e && src.at(i + 1) == '*' {
            return Parsed::Done(i + 2, Ranged { inner: Index::All, range: src.wrap(i, i + 2) }, no_errors());
        }
        let k = if i + 1 < e && src.at(i + 1) == '-' { i + 2 } else { i + 1 };
        let d = src.digit_run(k, e);
        if d == k {
            return Parsed::Failed(k);
        }
        proof {
            lemma_digit_run_digits(src@, k as int, e as int);
        }
        match src.digits_i32(k, d) {
            Some(n) => Parsed::Done(d, Ranged { inner: Index::Number(n), range: src.wrap(i, d) }, no_errors()),
            None => Parsed::Panicked,
        }
    }
}

impl ArrayIndex {
    /// How the array index is written
    pub fn to_string(&self) -> (r: String)
        ensures
            r@ == array_index_text(*self),
    {
        let mut r = String::new();
        push_char(&mut r, '[');
        match self.index {
            Some(n) => push_int(&mut r, n as i64),
            None => push_char(&mut r, '*'),
        }
        match self.separator {
            Some(c) => {
                push_char(&mut r, ',');
                push_char(&mut r, c);
            },
            None => {},
        }
        push_char(&mut r, ']');
        assert(r@ =~= array_index_text(*self));
        r
    }

    /// Parses an array index at offset `i`
    pub fn parse(src: &Src, i: usize, e: usize) -> (r: Parsed<Ranged<ArrayIndex>>)
        requires
            src.wf(),
            i <= e <= src@.len(),
        ensures
            r@ == sp_array_index(src@, i as int, e as int),
            r matches Parsed::Done(q, _, _) ==> i < q <= e,
    {
        if !(i < e && src.at(i) == '[') {
            return Parsed::Failed(i);
        }
        let j = i + 1;
        let d = src.digit_run(j, e);
        proof {
            lemma_digit_run_digits(src@, j as int, e as int);
        }
        let (index, p, errs1): (Option<i32>, usize, Vec<Error>) = if j < e && src.at(j) == '*' {
            (None, j + 1, no_errors())
        } else if d > j {
            match src.digits_i32(j, d) {
                Some(n) => (Some(n), d, no_errors()),
                None => (None, j, one_error(src.expect_error(j, e, "Expected index, or *"))),
            }
        } else {
            (None, j, one_error(src.expect_error(j, e, "Expected index, or *")))
        };
        let (separator, q, errs2): (Option<char>, usize, Vec<Error>) = if p < e && src.at(p) == ',' {
            if p + 1 < e && src.at(p + 1) != ']' {
                (Some(src.at(p + 1)), p + 2, no_errors())
            } else {
                (None, p + 1, one_error(src.expect_error(p + 1, e, "Expected char between `,` and closing `]`")))
            }
        } else {
            (None, p, no_errors())
        };
        let (end, errs3) = src.close_bracket(q, e);
        let errs = join_errors(join_errors(errs1, errs2), errs3);
        Parsed::Done(end, Ranged { inner: ArrayIndex { index, separator }, range: src.wrap(i, end) }, errs)
    }
}

impl Src {
    /// A closing bracket at `p`, or the error reporting it missing
    pub fn close_bracket(&self, p: usize, e: usize) -> (r: (usize, Vec<Error>))
        requires
            self.wf(),
            p <= e <= self@.len(),
        ensures
            (r.0 as int, errors_view(r.1@)) == sp_close_bracket(self@, p as int, e as int),
            p <= r.0 <= e,
    {
        if p < e && self.at(p) == ']' {
            (p + 1, no_errors())
        } else {
            (p, one_error(self.expect_error(p, e, "Expected closing `]`")))
        }
    }
}

} // verus!
