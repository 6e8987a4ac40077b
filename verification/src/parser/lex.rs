//! The smallest pieces of the grammar: whitespace, line endings, fixed words and runs of
//! characters, over a part of the text that ends at offset `e`.
use vstd::prelude::*;
use vstd::string::*;
use super::input::Src;
use crate::text::{is_alphanumeric, unicode_alphanumeric};

verus! {

/// A space or a tab
pub open spec fn is_space(c: char) -> bool {
    c == ' ' || c == '\t'
}

/// A space, a tab, a carriage return or a line feed
pub open spec fn is_multispace(c: char) -> bool {
    c == ' ' || c == '\t' || c == '\r' || c == '\n'
}

/// End of the run of spaces and tabs that starts at `i`
pub open spec fn skip_spaces(s: Seq<char>, i: int, e: int) -> int
    decreases e - i,
{
    if i < e && is_space(s[i]) {
        skip_spaces(s, i + 1, e)
    } else {
        i
    }
}

/// End of the run of whitespace (line endings included) that starts at `i`
pub open spec fn skip_multispace(s: Seq<char>, i: int, e: int) -> int
    decreases e - i,
{
    if i < e && is_multispace(s[i]) {
        skip_multispace(s, i + 1, e)
    } else {
        i
    }
}

/// End of a line ending (`\n` or `\r\n`) that starts at `i`
pub open spec fn line_ending(s: Seq<char>, i: int, e: int) -> Option<int> {
    if i < e && s[i] == '\n' {
        Some(i + 1)
    } else if i + 1 < e && s[i] == '\r' && s[i + 1] == '\n' {
        Some(i + 2)
    } else {
        None
    }
}

/// Offset after an optional line ending at `i`
pub open spec fn opt_line_ending(s: Seq<char>, i: int, e: int) -> int {
    match line_ending(s, i, e) {
        Some(j) => j,
        None => i,
    }
}

/// First offset at or after `i` that holds one of the characters of `stop`, or `e`
pub open spec fn scan_to(s: Seq<char>, i: int, e: int, stop: Seq<char>) -> int
    decreases e - i,
{
    if i < e && !stop.contains(s[i]) {
        scan_to(s, i + 1, e, stop)
    } else {
        i
    }
}

/// The text at `i` is `t`
pub open spec fn tag_at(s: Seq<char>, i: int, e: int, t: Seq<char>) -> bool {
    i + t.len() <= e && s.subrange(i, i + t.len()) == t
}

/// Lower case of an ASCII letter; other characters are left alone
pub open spec fn ascii_lower(c: char) -> u32 {
    if 'A' <= c && c <= 'Z' {
        (c as u32 + 32) as u32
    } else {
        c as u32
    }
}

/// The text at `i` is `t`, ignoring the case of ASCII letters
pub open spec fn tag_no_case_at(s: Seq<char>, i: int, e: int, t: Seq<char>) -> bool {
    i + t.len() <= e && forall|k: int| 0 <= k < t.len() ==> ascii_lower(#[trigger] s[i + k]) == ascii_lower(t[k])
}

/// A character of a node identifier or of a has-predicate identifier
pub open spec fn is_id_char(c: char) -> bool {
    unicode_alphanumeric(c) || c == '-' || c == '_' || c == '.' || c == '+' || c == '*' || c == '?'
}

/// A character of a mod name, in NEEDS blocks and passes
pub open spec fn is_mod_char(c: char) -> bool {
    unicode_alphanumeric(c) || c == '/' || c == '_' || c == '-' || c == '?'
}

/// End of the run of characters satisfying `p` that starts at `i`
pub open spec fn run_of(s: Seq<char>, i: int, e: int, p: spec_fn(char) -> bool) -> int
    decreases e - i,
{
    if i < e && p(s[i]) {
        run_of(s, i + 1, e, p)
    } else {
        i
    }
}

/// A comment at `i`: optional spaces, `//`, and the rest of the line (without the line ending).
/// Gives the offset where it ends.
pub open spec fn comment_end(s: Seq<char>, i: int, e: int) -> Option<int> {
    let j = skip_spaces(s, i, e);
    if j + 1 < e && s[j] == '/' && s[j + 1] == '/' {
        Some(scan_to(s, j + 2, e, seq!['\r', '\n']))
    } else {
        None
    }
}

/// An empty line at `i`: spaces and tabs, then a line ending
pub open spec fn empty_line_end(s: Seq<char>, i: int, e: int) -> Option<int> {
    line_ending(s, skip_spaces(s, i, e), e)
}

/// Skipping spaces stops within the text, after spaces only, on a character that is no space
pub proof fn lemma_skip_spaces(s: Seq<char>, i: int, e: int)
    requires
        i <= e,
    ensures
        i <= skip_spaces(s, i, e) <= e,
        forall|k: int| i <= k < skip_spaces(s, i, e) ==> is_space(#[trigger] s[k]),
        skip_spaces(s, i, e) < e ==> !is_space(s[skip_spaces(s, i, e)]),
    decreases e - i,
{
    if i < e && is_space(s[i]) {
        lemma_skip_spaces(s, i + 1, e);
    }
}

/// A run of characters ends between where it starts and the end of the text
pub proof fn lemma_run_of(s: Seq<char>, i: int, e: int, p: spec_fn(char) -> bool)
    requires
        i <= e,
    ensures
        i <= run_of(s, i, e, p) <= e,
    decreases e - i,
{
    if i < e && p(s[i]) {
        lemma_run_of(s, i + 1, e, p);
    }
}

/// Scanning to a stop character ends between where it starts and the end of the text
pub proof fn lemma_scan_to(s: Seq<char>, i: int, e: int, stop: Seq<char>)
    requires
        i <= e,
    ensures
        i <= scan_to(s, i, e, stop) <= e,
    decreases e - i,
{
    if i < e && !stop.contains(s[i]) {
        lemma_scan_to(s, i + 1, e, stop);
    }
}

/// Skipping whitespace ends between where it starts and the end of the text
pub proof fn lemma_skip_multispace(s: Seq<char>, i: int, e: int)
    requires
        i <= e,
    ensures
        i <= skip_multispace(s, i, e) <= e,
    decreases e - i,
{
    if i < e && is_multispace(s[i]) {
        lemma_skip_multispace(s, i + 1, e);
    }
}

impl Src {
    /// Skips spaces and tabs
    pub fn skip_spaces(&self, i: usize, e: usize) -> (r: usize)
        requires
            i <= e <= self@.len(),
        ensures
            r == skip_spaces(self@, i as int, e as int),
            i <= r <= e,
    {
        let mut k = i;
        while k < e && (self.at(k) == ' ' || self.at(k) == '\t')
            invariant
                i <= k <= e <= self@.len(),
                skip_spaces(self@, i as int, e as int) == skip_spaces(self@, k as int, e as int),
            decreases e - k,
        {
            k = k + 1;
        }
        proof {
            lemma_skip_spaces(self@, i as int, e as int);
        }
        k
    }

    /// Skips whitespace, line endings included
    pub fn skip_multispace(&self, i: usize, e: usize) -> (r: usize)
        requires
            i <= e <= self@.len(),
        ensures
            r == skip_multispace(self@, i as int, e as int),
            i <= r <= e,
    {
        let mut k = i;
        while k < e && (self.at(k) == ' ' || self.at(k) == '\t' || self.at(k) == '\r' || self.at(k) == '\n')
            invariant
                i <= k <= e <= self@.len(),
                skip_multispace(self@, i as int, e as int) == skip_multispace(self@, k as int, e as int),
            decreases e - k,
        {
            k = k + 1;
        }
        proof {
            lemma_skip_multispace(self@, i as int, e as int);
        }
        k
    }

    /// A line ending at `i`
    pub fn line_ending(&self, i: usize, e: usize) -> (r: Option<usize>)
        requires
            i <= e <= self@.len(),
        ensures
            r == (match line_ending(self@, i as int, e as int) {
                Some(j) => Some(j as usize),
                None => None::<usize>,
            }),
            r matches Some(j) ==> i < j <= e,
    {
        if i < e && self.at(i) == '\n' {
            Some(i + 1)
        } else if i < e && i + 1 < e && self.at(i) == '\r' && self.at(i + 1) == '\n' {
            Some(i + 2)
        } else {
            None
        }
    }

    /// Offset after an optional line ending
    pub fn opt_line_ending(&self, i: usize, e: usize) -> (r: usize)
        requires
            i <= e <= self@.len(),
        ensures
            r == opt_line_ending(self@, i as int, e as int),
            i <= r <= e,
    {
        match self.line_ending(i, e) {
            Some(j) => j,
            None => i,
        }
    }

    /// First offset holding a carriage return or a line feed, or `e`
    pub fn scan_to_eol(&self, i: usize, e: usize) -> (r: usize)
        requires
            i <= e <= self@.len(),
        ensures
            r == scan_to(self@, i as int, e as int, seq!['\r', '\n']),
            i <= r <= e,
    {
        let mut k = i;
        while k < e && self.at(k) != '\r' && self.at(k) != '\n'
            invariant
                i <= k <= e <= self@.len(),
                scan_to(self@, i as int, e as int, seq!['\r', '\n']) == scan_to(
                    self@,
                    k as int,
                    e as int,
                    seq!['\r', '\n'],
                ),
            decreases e - k,
        {
            assert(!seq!['\r', '\n'].contains(self@[k as int])) by {
                if seq!['\r', '\n'].contains(self@[k as int]) {
                    let m = choose|m: int| 0 <= m < 2 && seq!['\r', '\n'][m] == self@[k as int];
                }
            }
            k = k + 1;
        }
        proof {
            if k < e {
                assert(seq!['\r', '\n'].contains(self@[k as int])) by {
                    if self@[k as int] == '\r' {
                        assert(seq!['\r', '\n'][0] == '\r');
                    } else {
                        assert(seq!['\r', '\n'][1] == '\n');
                    }
                }
            }
        }
        k
    }

    /// The text at `i` is `t`, ignoring the case of ASCII letters
    pub fn tag_no_case(&self, i: usize, e: usize, t: &str) -> (r: bool)
        requires
            i <= e <= self@.len(),
        ensures
            r == tag_no_case_at(self@, i as int, e as int, t@),
    {
        let n = t.unicode_len();
        if n > e - i {
            return false;
        }
        let mut k: usize = 0;
        while k < n
            invariant
                n == t@.len(),
                i + n <= e <= self@.len(),
                k <= n,
                forall|m: int| 0 <= m < k ==> ascii_lower(#[trigger] self@[i + m]) == ascii_lower(t@[m]),
            decreases n - k,
        {
            if lower(self.at(i + k)) != lower(t.get_char(k)) {
                return false;
            }
            k = k + 1;
        }
        assert forall|m: int| 0 <= m < t@.len() implies ascii_lower(#[trigger] self@[i + m]) == ascii_lower(t@[m]) by {}
        true
    }

    /// End of the run of identifier characters at `i`
    pub fn id_run(&self, i: usize, e: usize) -> (r: usize)
        requires
            i <= e <= self@.len(),
        ensures
            r == run_of(self@, i as int, e as int, |c: char| is_id_char(c)),
            i <= r <= e,
    {
        let mut k = i;
        while k < e && is_id_char_exec(self.at(k))
            invariant
                i <= k <= e <= self@.len(),
                run_of(self@, i as int, e as int, |c: char| is_id_char(c)) == run_of(self@, k as int, e as int, |c: char| is_id_char(c)),
            decreases e - k,
        {
            k = k + 1;
        }
        proof {
            lemma_run_of(self@, i as int, e as int, |c: char| is_id_char(c));
        }
        k
    }

    /// End of the run of mod-name characters at `i`
    pub fn mod_run(&self, i: usize, e: usize) -> (r: usize)
        requires
            i <= e <= self@.len(),
        ensures
            r == run_of(self@, i as int, e as int, |c: char| is_mod_char(c)),
            i <= r <= e,
    {
        let mut k = i;
        while k < e && is_mod_char_exec(self.at(k))
            invariant
                i <= k <= e <= self@.len(),
                run_of(self@, i as int, e as int, |c: char| is_mod_char(c)) == run_of(self@, k as int, e as int, |c: char| is_mod_char(c)),
            decreases e - k,
        {
            k = k + 1;
        }
        proof {
            lemma_run_of(self@, i as int, e as int, |c: char| is_mod_char(c));
        }
        k
    }

    /// A comment at `i`
    pub fn comment_end(&self, i: usize, e: usize) -> (r: Option<usize>)
        requires
            i <= e <= self@.len(),
        ensures
            r == (match comment_end(self@, i as int, e as int) {
                Some(j) => Some(j as usize),
                None => None::<usize>,
            }),
            r matches Some(j) ==> i < j <= e,
    {
        let j = self.skip_spaces(i, e);
        if j < e && j + 1 < e && self.at(j) == '/' && self.at(j + 1) == '/' {
            Some(self.scan_to_eol(j + 2, e))
        } else {
            None
        }
    }

    /// An empty line at `i`
    pub fn empty_line_end(&self, i: usize, e: usize) -> (r: Option<usize>)
        requires
            i <= e <= self@.len(),
        ensures
            r == (match empty_line_end(self@, i as int, e as int) {
                Some(j) => Some(j as usize),
                None => None::<usize>,
            }),
            r matches Some(j) ==> i < j <= e,
    {
        let j = self.skip_spaces(i, e);
        self.line_ending(j, e)
    }
}

fn lower(c: char) -> (r: u32)
    ensures
        r == ascii_lower(c),
{
    if 'A' <= c && c <= 'Z' {
        c as u32 + 32
    } else {
        c as u32
    }
}

/// A character of a node identifier
pub fn is_id_char_exec(c: char) -> (r: bool)
    ensures
        r == is_id_char(c),
{
    is_alphanumeric(c) || c == '-' || c == '_' || c == '.' || c == '+' || c == '*' || c == '?'
}

/// A character of a mod name
pub fn is_mod_char_exec(c: char) -> (r: bool)
    ensures
        r == is_mod_char(c),
{
    is_alphanumeric(c) || c == '/' || c == '_' || c == '-' || c == '?'
}

} // verus!

verus! {

/// A comment that is found ends after its start, within the text
pub proof fn lemma_comment_end(s: Seq<char>, i: int, e: int)
    requires
        i <= e,
    ensures
        comment_end(s, i, e) matches Some(j) ==> i < j <= e,
{
    lemma_skip_spaces(s, i, e);
    let j = skip_spaces(s, i, e);
    if j + 1 < e {
        lemma_scan_to(s, j + 2, e, seq!['\r', '\n']);
    }
}

/// An empty line that is found ends after its start, within the text
pub proof fn lemma_empty_line_end(s: Seq<char>, i: int, e: int)
    requires
        i <= e,
    ensures
        empty_line_end(s, i, e) matches Some(j) ==> i < j <= e,
{
    lemma_skip_spaces(s, i, e);
}

} // verus!
