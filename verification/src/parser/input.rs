//! The text being parsed: its characters, the line and column of every offset, and the
//! outcome of running a parser on a part of it.
use vstd::prelude::*;
use super::error::{Error, Severity, SpecError, errors_view};
use super::range::{Position, Range, Ranged};
use crate::text::{push_char, str_chars};

verus! {

/// Number of line feeds among the first `i` characters
pub open spec fn count_nl(s: Seq<char>, i: int) -> int
    decreases i,
{
    if i <= 0 {
        0
    } else {
        count_nl(s, i - 1) + if s[i - 1] == '\n' { 1int } else { 0int }
    }
}

/// Offset of the first character of the line that offset `i` is on
pub open spec fn line_start(s: Seq<char>, i: int) -> int
    decreases i,
{
    if i <= 0 {
        0
    } else if s[i - 1] == '\n' {
        i
    } else {
        line_start(s, i - 1)
    }
}

/// Line (from 1) and column (from 1, counted in characters) of offset `i`
pub open spec fn pos_at(s: Seq<char>, i: int) -> Position {
    Position { line: (1 + count_nl(s, i)) as u32, col: (1 + i - line_start(s, i)) as u32 }
}

/// The range from the position of offset `i` to the position of offset `j`
pub open spec fn wrap_range(s: Seq<char>, i: int, j: int) -> Range {
    Range { start: pos_at(s, i), end: pos_at(s, j) }
}

/// The range of the text between offsets `i` and `j`: it starts at the position of `i`; when
/// the text holds a line feed, it ends on the last line, at the number of characters that
/// follow the last line feed, and otherwise at the position of `j`
pub open spec fn span_range(s: Seq<char>, i: int, j: int) -> Range {
    if count_nl(s, j) > count_nl(s, i) {
        Range {
            start: pos_at(s, i),
            end: Position { line: pos_at(s, j).line, col: (j - line_start(s, j)) as u32 },
        }
    } else {
        wrap_range(s, i, j)
    }
}

/// The outcome of a parser, with the text given as a sequence of characters
pub enum SParsed<V> {
    /// The parser read up to offset `end`, produced a value and reported errors
    Done(int, V, Seq<SpecError>),
    /// The parser failed at the given offset
    Failed(int),
    /// A number in the text does not fit its type (the parser would panic)
    Panicked,
}

/// The outcome of running a parser
pub enum Parsed<T> {
    /// The parser read up to the given offset, produced a value and reported errors
    Done(usize, T, Vec<Error>),
    /// The parser failed at the given offset
    Failed(usize),
    /// A number in the text does not fit its type (the parser would panic)
    Panicked,
}

impl<T: View> View for Parsed<T> {
    type V = SParsed<T::V>;

    open spec fn view(&self) -> SParsed<T::V> {
        match self {
            Parsed::Done(end, v, errs) => SParsed::Done(*end as int, v@, errors_view(errs@)),
            Parsed::Failed(at) => SParsed::Failed(*at as int),
            Parsed::Panicked => SParsed::Panicked,
        }
    }
}

/// The error reported when `expect` does not find what it looks for at offset `i` of a part
/// of the text ending at `e`: its source is the rest of that part, and its range covers the
/// next character, if there is one
pub open spec fn expect_error(s: Seq<char>, i: int, e: int, message: Seq<char>) -> SpecError {
    SpecError {
        severity: Severity::Error,
        range: span_range(s, i, if i < e { i + 1 } else { i }),
        source: s.subrange(i, e),
        message,
        context: None,
    }
}

/// The text being parsed, with the line and column of every offset
pub struct Src {
    chars: Vec<char>,
    lines: Vec<u32>,
    cols: Vec<u32>,
}

impl View for Src {
    type V = Seq<char>;

    closed spec fn view(&self) -> Seq<char> {
        self.chars@
    }
}

/// The start of the line holding offset `i`, and the number of line endings before `i`, lie
/// between 0 and `i`
pub proof fn lemma_line_start_le(s: Seq<char>, i: int)
    requires
        0 <= i,
    ensures
        0 <= line_start(s, i) <= i,
        0 <= count_nl(s, i) <= i,
    decreases i,
{
    if i > 0 {
        lemma_line_start_le(s, i - 1);
    }
}

impl Src {
    /// The tables hold the position of every offset
    pub closed spec fn wf(&self) -> bool {
        &&& self.chars@.len() < 0xffff_fff0
        &&& self.lines@.len() == self.chars@.len() + 1
        &&& self.cols@.len() == self.chars@.len() + 1
        &&& forall|i: int|
            0 <= i <= self.chars@.len() ==> #[trigger] self.lines@[i] == pos_at(self.chars@, i).line
                && self.cols@[i] == pos_at(self.chars@, i).col
    }

    /// Reads the text, computing the position of every offset
    pub fn new(text: &str) -> (r: Src)
        requires
            text@.len() < 0xffff_fff0,
        ensures
            r.wf(),
            r@ == text@,
    {
        let chars = str_chars(text);
        let mut lines: Vec<u32> = Vec::new();
        let mut cols: Vec<u32> = Vec::new();
        let mut line: u32 = 1;
        let mut col: u32 = 1;
        let mut i: usize = 0;
        proof {
            lemma_line_start_le(chars@, 0);
        }
        while i < chars.len()
            invariant
                i <= chars@.len(),
                chars@.len() < 0xffff_fff0,
                line == pos_at(chars@, i as int).line,
                col == pos_at(chars@, i as int).col,
                0 <= count_nl(chars@, i as int) <= i,
                0 <= line_start(chars@, i as int) <= i,
                lines@.len() == i,
                cols@.len() == i,
                forall|k: int|
                    0 <= k < i ==> #[trigger] lines@[k] == pos_at(chars@, k).line && cols@[k]
                        == pos_at(chars@, k).col,
            decreases chars.len() - i,
        {
            lines.push(line);
            cols.push(col);
            assert(forall|k: int|
                0 <= k < i + 1 ==> #[trigger] lines@[k] == pos_at(chars@, k).line && cols@[k]
                    == pos_at(chars@, k).col);
            proof {
                lemma_line_start_le(chars@, i + 1);
                lemma_line_start_le(chars@, i as int);
                assert(count_nl(chars@, i + 1) == count_nl(chars@, i as int) + if chars@[i as int]
                    == '\n' {
                    1int
                } else {
                    0int
                });
                assert(line_start(chars@, i + 1) == if chars@[i as int] == '\n' {
                    i + 1
                } else {
                    line_start(chars@, i as int)
                });
            }
            if chars[i] == '\n' {
                line = line + 1;
                col = 1;
            } else {
                col = col + 1;
            }
            i = i + 1;
        }
        lines.push(line);
        cols.push(col);
        Src { chars, lines, cols }
    }

    /// Number of characters
    pub fn len(&self) -> (r: usize)
        ensures
            r == self@.len(),
    {
        self.chars.len()
    }

    /// The character at offset `i`
    pub fn at(&self, i: usize) -> (c: char)
        requires
            i < self@.len(),
        ensures
            c == self@[i as int],
    {
        self.chars[i]
    }

    /// Position of offset `i`
    pub fn pos(&self, i: usize) -> (p: Position)
        requires
            self.wf(),
            i <= self@.len(),
        ensures
            p == pos_at(self@, i as int),
    {
        Position { line: self.lines[i], col: self.cols[i] }
    }

    /// Range from offset `i` to offset `j`
    pub fn wrap(&self, i: usize, j: usize) -> (r: Range)
        requires
            self.wf(),
            i <= j <= self@.len(),
        ensures
            r == wrap_range(self@, i as int, j as int),
    {
        Range { start: self.pos(i), end: self.pos(j) }
    }

    /// Range of the text between offsets `i` and `j`
    pub fn span(&self, i: usize, j: usize) -> (r: Range)
        requires
            self.wf(),
            i <= j <= self@.len(),
        ensures
            r == span_range(self@, i as int, j as int),
    {
        let start = self.pos(i);
        let end = self.pos(j);
        proof {
            lemma_line_start_le(self@, j as int);
            lemma_line_start_le(self@, i as int);
            lemma_count_nl_mono(self@, i as int, j as int);
            assert(0 <= count_nl(self@, i as int) <= i);
            assert(self@.len() < 0xffff_fff0);
            assert(start.line == pos_at(self@, i as int).line);
            assert(start.line as int == 1 + count_nl(self@, i as int));
            assert(end.line as int == 1 + count_nl(self@, j as int));
            assert(end.col as int == 1 + j - line_start(self@, j as int));
        }
        if end.line != start.line {
            Range { start, end: Position { line: end.line, col: end.col - 1 } }
        } else {
            Range { start, end }
        }
    }

    /// The text between offsets `i` and `j`
    pub fn text(&self, i: usize, j: usize) -> (r: String)
        requires
            i <= j <= self@.len(),
        ensures
            r@ == self@.subrange(i as int, j as int),
    {
        let mut r = String::new();
        let mut k = i;
        while k < j
            invariant
                i <= k <= j <= self@.len(),
                r@ == self@.subrange(i as int, k as int),
            decreases j - k,
        {
            push_char(&mut r, self.chars[k]);
            assert(self@.subrange(i as int, k + 1) == self@.subrange(i as int, k as int).push(self@[k as int]));
            k = k + 1;
        }
        r
    }

    /// The error `expect` reports at offset `i` of a part of the text that ends at `e`
    pub fn expect_error(&self, i: usize, e: usize, message: &str) -> (r: Error)
        requires
            self.wf(),
            i <= e <= self@.len(),
        ensures
            r@ == expect_error(self@, i as int, e as int, message@),
    {
        let j = if i < e { i + 1 } else { i };
        Error {
            severity: Severity::Error,
            range: self.span(i, j),
            source: self.text(i, e),
            message: String::from_str(message),
            context: None,
        }
    }
}

proof fn lemma_count_nl_mono(s: Seq<char>, i: int, j: int)
    requires
        0 <= i <= j,
    ensures
        count_nl(s, i) <= count_nl(s, j),
    decreases j - i,
{
    if i < j {
        lemma_count_nl_mono(s, i, j - 1);
        lemma_line_start_le(s, j - 1);
    }
}

} // verus!
