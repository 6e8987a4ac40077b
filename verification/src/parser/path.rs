//! Paths to nodes and keys.
use vstd::prelude::*;
use vstd::string::*;
use super::error::{Error, SpecError, errors_view, join_errors, no_errors, one_error};
use super::input::{Parsed, SParsed, Src, expect_error, wrap_range};
use super::lex::{is_id_char, run_of, scan_to, tag_at, lemma_run_of, lemma_scan_to};
use super::range::Ranged;
use crate::text::{int_text, push_char, push_int};

verus! {

/// Where the path starts from
#[derive(Debug, Clone, Copy, PartialEq, Eq, Structural)]
pub enum PathStart {
    /// Path starts from the top level, `@`
    TopLevel,
    /// Path starts from the root of the current top level node, `/`
    CurrentTopLevel,
}

impl View for PathStart {
    type V = PathStart;

    open spec fn view(&self) -> PathStart {
        *self
    }
}

/// Segment of a path, separated by `/`
#[derive(Debug, Clone, PartialEq, Eq)]
pub enum PathSegment {
    /// Segment is `..`, going up a level
    DotDot,
    /// Name of a node to traverse into
    NodeName {
        /// Node type
        node: String,
        /// Optional node name
        name: Option<String>,
        /// Optional index of the node
        index: Option<i32>,
    },
}

/// A [`PathSegment`] with its texts as character sequences
pub enum SpecPathSegment {
    /// `..`
    DotDot,
    /// A node to go into
    NodeName {
        /// Node type
        node: Seq<char>,
        /// Optional node name
        name: Option<Seq<char>>,
        /// Optional index
        index: Option<i32>,
    },
}

impl View for PathSegment {
    type V = SpecPathSegment;

    open spec fn view(&self) -> SpecPathSegment {
        match self {
            PathSegment::DotDot => SpecPathSegment::DotDot,
            PathSegment::NodeName { node, name, index } => SpecPathSegment::NodeName {
                node: node@,
                name: match name {
                    Some(n) => Some(n@),
                    None => None,
                },
                index: *index,
            },
        }
    }
}

/// A path to a node or a variable
#[derive(Debug, Clone, PartialEq, Eq)]
pub struct Path {
    /// Optional start charecter of the path. Starts in current node if not specified
    pub start: Option<Ranged<PathStart>>,
    /// Segments of the path, separated by `/`
    pub segments: Vec<Ranged<PathSegment>>,
}

/// A [`Path`] with its segments as a sequence
pub struct SpecPath {
    /// Optional start
    pub start: Option<Ranged<PathStart>>,
    /// The segments
    pub segments: Seq<Ranged<SpecPathSegment>>,
}

impl View for Path {
    type V = SpecPath;

    open spec fn view(&self) -> SpecPath {
        SpecPath { start: self.start, segments: self.segments@.map_values(|g: Ranged<PathSegment>| g@) }
    }
}

/// How a path start is written
pub open spec fn path_start_text(p: PathStart) -> Seq<char> {
    match p {
        PathStart::TopLevel => seq!['@'],
        PathStart::CurrentTopLevel => seq!['/'],
    }
}

/// How a path segment is written, with its closing `/`
pub open spec fn path_segment_text(g: SpecPathSegment) -> Seq<char> {
    match g {
        SpecPathSegment::DotDot => seq!['.', '.', '/'],
        SpecPathSegment::NodeName { node, name, index } => node + match name {
            Some(n) => seq!['['] + n + seq![']'],
            None => seq![],
        } + match index {
            Some(i) => int_text(i as int),
            None => seq![],
        } + seq!['/'],
    }
}

/// The segments of a path, one after the other
pub open spec fn segments_text(g: Seq<Ranged<SpecPathSegment>>) -> Seq<char>
    decreases g.len(),
{
    if g.len() == 0 {
        seq![]
    } else {
        segments_text(g.drop_last()) + path_segment_text(g.last().inner)
    }
}

/// How a path is written
pub open spec fn path_text(p: SpecPath) -> Seq<char> {
    (match p.start {
        Some(st) => path_start_text(st.inner),
        None => seq![],
    }) + segments_text(p.segments)
}

/// A path start at offset `i`: `@` or `/`
pub open spec fn sp_path_start(s: Seq<char>, i: int, e: int) -> SParsed<Ranged<PathStart>> {
    if i < e && s[i] == '@' {
        SParsed::Done(i + 1, Ranged { inner: PathStart::TopLevel, range: wrap_range(s, i, i + 1) }, seq![])
    } else if i < e && s[i] == '/' {
        SParsed::Done(i + 1, Ranged { inner: PathStart::CurrentTopLevel, range: wrap_range(s, i, i + 1) }, seq![])
    } else {
        SParsed::Failed(i)
    }
}

/// The optional name of a path segment at `k`: `[`, characters up to `]` or the end of the line,
/// and `]` (reported when missing). Gives the name, where it ends, and the errors.
pub open spec fn sp_segment_name(s: Seq<char>, k: int, e: int) -> (Option<Seq<char>>, int, Seq<SpecError>) {
    if k < e && s[k] == '[' {
        let m = scan_to(s, k + 1, e, seq![']', '\r', '\n']);
        if m > k + 1 {
            if m < e && s[m] == ']' {
                (Some(s.subrange(k + 1, m)), m + 1, seq![])
            } else {
                (Some(s.subrange(k + 1, m)), m, seq![expect_error(s, m, e, "Expected closing `]`"@)])
            }
        } else {
            (None, k, seq![])
        }
    } else {
        (None, k, seq![])
    }
}

/// A path segment at offset `i`: `..` or a node (with an optional name), then `/`
pub open spec fn sp_path_segment(s: Seq<char>, i: int, e: int) -> SParsed<Ranged<SpecPathSegment>> {
    if tag_at(s, i, e, seq!['.', '.']) {
        if i + 2 < e && s[i + 2] == '/' {
            SParsed::Done(i + 3, Ranged { inner: SpecPathSegment::DotDot, range: wrap_range(s, i, i + 3) }, seq![])
        } else {
            SParsed::Failed(i + 2)
        }
    } else {
        let k = run_of(s, i, e, |c: char| is_id_char(c));
        if k == i {
            SParsed::Failed(i)
        } else {
            let (name, p, errs) = sp_segment_name(s, k, e);
            if p < e && s[p] == '/' {
                SParsed::Done(
                    p + 1,
                    Ranged {
                        inner: SpecPathSegment::NodeName { node: s.subrange(i, k), name, index: None },
                        range: wrap_range(s, i, p + 1),
                    },
                    errs,
                )
            } else {
                SParsed::Failed(p)
            }
        }
    }
}

/// The segments of a path from `p` on: as many as parse
pub open spec fn sp_segments(s: Seq<char>, p: int, e: int) -> (Seq<Ranged<SpecPathSegment>>, int, Seq<SpecError>)
    decreases e - p,
{
    match sp_path_segment(s, p, e) {
        SParsed::Done(q, g, errs) => if p < q <= e {
            let (rest, end, errs2) = sp_segments(s, q, e);
            (seq![g] + rest, end, errs + errs2)
        } else {
            (seq![], p, seq![])
        },
        _ => (seq![], p, seq![]),
    }
}

/// A path at offset `i`: an optional start and any number of segments. It never fails.
pub open spec fn sp_path(s: Seq<char>, i: int, e: int) -> (Ranged<SpecPath>, int, Seq<SpecError>) {
    let (start, j) = match sp_path_start(s, i, e) {
        SParsed::Done(j, st, _) => (Some(st), j),
        _ => (None, i),
    };
    let (segments, end, errs) = sp_segments(s, j, e);
    (Ranged { inner: SpecPath { start, segments }, range: wrap_range(s, i, end) }, end, errs)
}

/// A path segment that is read ends after its start, within the text
pub proof fn lemma_path_segment(s: Seq<char>, i: int, e: int)
    requires
        0 <= i <= e,
    ensures
        sp_path_segment(s, i, e) matches SParsed::Done(q, _, _) ==> i < q <= e,
{
    let k = run_of(s, i, e, |c: char| is_id_char(c));
    lemma_run_of(s, i, e, |c: char| is_id_char(c));
    if k < e && s[k] == '[' {
        lemma_scan_to(s, k + 1, e, seq![']', '\r', '\n']);
    }
}

/// The segments of a path end between where they start and the end of the text
pub proof fn lemma_segments(s: Seq<char>, p: int, e: int)
    requires
        0 <= p <= e,
    ensures
        p <= sp_segments(s, p, e).1 <= e,
    decreases e - p,
{
    lemma_path_segment(s, p, e);
    if let SParsed::Done(q, g, errs) = sp_path_segment(s, p, e) {
        lemma_segments(s, q, e);
    }
}

/// A path ends between where it starts and the end of the text
pub proof fn lemma_path(s: Seq<char>, i: int, e: int)
    requires
        0 <= i <= e,
    ensures
        i <= sp_path(s, i, e).1 <= e,
{
    let j = match sp_path_start(s, i, e) {
        SParsed::Done(j, st, _) => j,
        _ => i,
    };
    lemma_segments(s, j, e);
}

impl PathStart {
    /// How the path start is written
    pub fn to_string(&self) -> (r: String)
        ensures
            r@ == path_start_text(*self),
    {
        let mut r = String::new();
        match self {
            PathStart::TopLevel => push_char(&mut r, '@'),
            PathStart::CurrentTopLevel => push_char(&mut r, '/'),
        }
        r
    }

    /// Parses a path start at offset `i`
    pub fn parse(src: &Src, i: usize, e: usize) -> (r: Parsed<Ranged<PathStart>>)
        requires
            src.wf(),
            i <= e <= src@.len(),
        ensures
            r@ == sp_path_start(src@, i as int, e as int),
    {
        if i < e && src.at(i) == '@' {
            Parsed::Done(i + 1, Ranged { inner: PathStart::TopLevel, range: src.wrap(i, i + 1) }, no_errors())
        } else if i < e && src.at(i) == '/' {
            Parsed::Done(i + 1, Ranged { inner: PathStart::CurrentTopLevel, range: src.wrap(i, i + 1) }, no_errors())
        } else {
            Parsed::Failed(i)
        }
    }
}

impl PathSegment {
    /// How the segment is written, with its closing `/`
    pub fn to_string(&self) -> (r: String)
        ensures
            r@ == path_segment_text(self@),
    {
        let mut r = String::new();
        match self {
            PathSegment::DotDot => {
                push_char(&mut r, '.');
                push_char(&mut r, '.');
                push_char(&mut r, '/');
            },
            PathSegment::NodeName { node, name, index } => {
                r.append(node.as_str());
                match name {
                    Some(n) => {
                        push_char(&mut r, '[');
                        r.append(n.as_str());
                        push_char(&mut r, ']');
                    },
                    None => {},
                }
                match index {
                    Some(i) => push_int(&mut r, *i as i64),
                    None => {},
                }
                push_char(&mut r, '/');
            },
        }
        assert(r@ =~= path_segment_text(self@));
        r
    }

    /// Parses a path segment at offset `i`
    pub fn parse(src: &Src, i: usize, e: usize) -> (r: Parsed<Ranged<PathSegment>>)
        requires
            src.wf(),
            i <= e <= src@.len(),
        ensures
            r@ == sp_path_segment(src@, i as int, e as int),
    {
        if i < e && i + 1 < e && src.at(i) == '.' && src.at(i + 1) == '.' {
            assert(src@.subrange(i as int, i + 2) =~= seq!['.', '.']);
            if i + 2 < e && src.at(i + 2) == '/' {
                return Parsed::Done(i + 3, Ranged { inner: PathSegment::DotDot, range: src.wrap(i, i + 3) }, no_errors());
            } else {
                return Parsed::Failed(i + 2);
            }
        }
        assert(!tag_at(src@, i as int, e as int, seq!['.', '.'])) by {
            if tag_at(src@, i as int, e as int, seq!['.', '.']) {
                assert(src@.subrange(i as int, i + 2)[0] == '.');
                assert(src@.subrange(i as int, i + 2)[1] == '.');
            }
        }
        let k = src.id_run(i, e);
        if k == i {
            return Parsed::Failed(i);
        }
        let (name, p, errs): (Option<String>, usize, Vec<Error>) = if k < e && src.at(k) == '[' {
            let m = src.scan_to_set3(k + 1, e, ']', '\r', '\n');
            if m > k + 1 {
                if m < e && src.at(m) == ']' {
                    (Some(src.text(k + 1, m)), m + 1, no_errors())
                } else {
                    (Some(src.text(k + 1, m)), m, one_error(src.expect_error(m, e, "Expected closing `]`")))
                }
            } else {
                (None, k, no_errors())
            }
        } else {
            (None, k, no_errors())
        };
        if p < e && src.at(p) == '/' {
            let node = src.text(i, k);
            Parsed::Done(
                p + 1,
                Ranged { inner: PathSegment::NodeName { node, name, index: None }, range: src.wrap(i, p + 1) },
                errs,
            )
        } else {
            Parsed::Failed(p)
        }
    }
}

impl Src {
    /// First offset at or after `i` holding `a`, `b` or `c`, or `e`
    pub fn scan_to_set3(&self, i: usize, e: usize, a: char, b: char, c: char) -> (r: usize)
        requires
            i <= e <= self@.len(),
        ensures
            r == scan_to(self@, i as int, e as int, seq![a, b, c]),
            i <= r <= e,
    {
        let mut k = i;
        while k < e && self.at(k) != a && self.at(k) != b && self.at(k) != c
            invariant
                i <= k <= e <= self@.len(),
                scan_to(self@, i as int, e as int, seq![a, b, c]) == scan_to(self@, k as int, e as int, seq![a, b, c]),
            decreases e - k,
        {
            assert(!seq![a, b, c].contains(self@[k as int])) by {
                if seq![a, b, c].contains(self@[k as int]) {
                    let m = choose|m: int| 0 <= m < 3 && seq![a, b, c][m] == self@[k as int];
                }
            }
            k = k + 1;
        }
        proof {
            lemma_scan_to(self@, i as int, e as int, seq![a, b, c]);
            if k < e {
                let x = self@[k as int];
                if x == a {
                    assert(seq![a, b, c][0] == x);
                } else if x == b {
                    assert(seq![a, b, c][1] == x);
                } else {
                    assert(seq![a, b, c][2] == x);
                }
            }
        }
        k
    }
}

impl Src {
    /// First offset at or after `i` holding `a` or `b`, or `e`
    pub fn scan_to_set2(&self, i: usize, e: usize, a: char, b: char) -> (r: usize)
        requires
            i <= e <= self@.len(),
        ensures
            r == scan_to(self@, i as int, e as int, seq![a, b]),
            i <= r <= e,
    {
        let mut k = i;
        while k < e && self.at(k) != a && self.at(k) != b
            invariant
                i <= k <= e <= self@.len(),
                scan_to(self@, i as int, e as int, seq![a, b]) == scan_to(self@, k as int, e as int, seq![a, b]),
            decreases e - k,
        {
            assert(!seq![a, b].contains(self@[k as int])) by {
                if seq![a, b].contains(self@[k as int]) {
                    let m = choose|m: int| 0 <= m < 2 && seq![a, b][m] == self@[k as int];
                }
            }
            k = k + 1;
        }
        proof {
            lemma_scan_to(self@, i as int, e as int, seq![a, b]);
            if k < e {
                let x = self@[k as int];
                if x == a {
                    assert(seq![a, b][0] == x);
                } else {
                    assert(seq![a, b][1] == x);
                }
            }
        }
        k
    }
}

impl Path {
    /// How the path is written
    pub fn to_string(&self) -> (r: String)
        ensures
            r@ == path_text(self@),
    {
        let mut r = match &self.start {
            Some(st) => st.inner.to_string(),
            None => String::new(),
        };
        let ghost head = r@;
        let mut k: usize = 0;
        while k < self.segments.len()
            invariant
                k <= self.segments@.len(),
                r@ == head + segments_text(self@.segments.take(k as int)),
            decreases self.segments.len() - k,
        {
            let t = self.segments[k].inner.to_string();
            r.append(t.as_str());
            assert(self@.segments.take(k + 1).drop_last() == self@.segments.take(k as int));
            k = k + 1;
        }
        assert(self@.segments.take(self@.segments.len() as int) == self@.segments);
        r
    }

    /// Parses a path at offset `i`; it never fails
    pub fn parse(src: &Src, i: usize, e: usize) -> (r: (Ranged<Path>, usize, Vec<Error>))
        requires
            src.wf(),
            i <= e <= src@.len(),
        ensures
            (r.0@, r.1 as int, errors_view(r.2@)) == sp_path(src@, i as int, e as int),
            i <= r.1 <= e,
    {
        proof {
            lemma_path(src@, i as int, e as int);
        }
        let (start, j) = match PathStart::parse(src, i, e) {
            Parsed::Done(j, st, _) => (Some(st), j),
            _ => (None, i),
        };
        let mut p = j;
        let mut segments: Vec<Ranged<PathSegment>> = Vec::new();
        let mut errs = no_errors();
        loop
            invariant
                src.wf(),
                j <= p <= e <= src@.len(),
                sp_segments(src@, j as int, e as int) == ({
                    let rest = sp_segments(src@, p as int, e as int);
                    (segments@.map_values(|g: Ranged<PathSegment>| g@) + rest.0, rest.1, errors_view(errs@) + rest.2)
                }),
            ensures
                !(sp_path_segment(src@, p as int, e as int) is Done),
            decreases e - p,
        {
            proof {
                lemma_path_segment(src@, p as int, e as int);
            }
            match PathSegment::parse(src, p, e) {
                Parsed::Done(q, g, errs1) => {
                    let ghost old_segments = segments@;
                    let ghost old_errs = errs@;
                    let ghost gv = g@;
                    segments.push(g);
                    errs = join_errors(errs, errs1);
                    proof {
                        let rest = sp_segments(src@, q as int, e as int);
                        assert(old_segments.map_values(|g: Ranged<PathSegment>| g@) + (seq![gv] + rest.0) =~= segments@.map_values(|g: Ranged<PathSegment>| g@) + rest.0);
                        assert(errors_view(old_errs) + (errors_view(errs1@) + rest.2) =~= errors_view(errs@) + rest.2);
                    }
                    p = q;
                },
                _ => {
                    break ;
                },
            }
        }
        let ghost rest = sp_segments(src@, p as int, e as int);
        assert(segments@.map_values(|g: Ranged<PathSegment>| g@) + rest.0 =~= segments@.map_values(|g: Ranged<PathSegment>| g@));
        assert(errors_view(errs@) + rest.2 =~= errors_view(errs@));
        (Ranged { inner: Path { start, segments }, range: src.wrap(i, p) }, p, errs)
    }
}

} // verus!
