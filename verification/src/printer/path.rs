//! Paths read from the parse tree, and how they are written.
use vstd::prelude::*;
use vstd::string::*;
use super::{GrammarPair, Rule, SpecPair, lemma_pairs_view};
use super::has::opt_text;
use crate::parser::path::{PathStart, path_start_text};
use crate::text::{int_text, push_char, push_int};

verus! {

/// Segment of a path, separated by `/`
#[derive(Debug, Clone, PartialEq, Eq)]
pub enum PathSegment {
    /// Segment is `..`, going up a level
    DotDot,
    /// Name of a node to traverse into
    NodeName {
        /// Node type
        node: String,
        /// Optional node name, as it was matched
        name: Option<String>,
        /// Optional index of the node
        index: Option<i32>,
    },
}

/// A [`PathSegment`] with its texts as character sequences
pub enum SpecSegment {
    /// `..`
    DotDot,
    /// A node to go into
    NodeName {
        /// Node type
        node: Seq<char>,
        /// Optional node name
        name: Option<Seq<char>>,
        /// Optional index
        index: Option<i32>,
    },
}

impl View for PathSegment {
    type V = SpecSegment;

    open spec fn view(&self) -> SpecSegment {
        match self {
            PathSegment::DotDot => SpecSegment::DotDot,
            PathSegment::NodeName { node, name, index } => SpecSegment::NodeName {
                node: node@,
                name: opt_text(*name),
                index: *index,
            },
        }
    }
}

/// A path to a node or a variable
#[derive(Debug, Clone, PartialEq, Eq)]
pub struct Path {
    /// Where the path starts; in the current node when there is none
    pub start: Option<PathStart>,
    /// The segments of the path
    pub segments: Vec<PathSegment>,
}

/// A [`Path`] with its segments as a sequence
pub struct SpecTreePath {
    /// Where the path starts
    pub start: Option<PathStart>,
    /// The segments
    pub segments: Seq<SpecSegment>,
}

impl View for Path {
    type V = SpecTreePath;

    open spec fn view(&self) -> SpecTreePath {
        SpecTreePath { start: self.start, segments: self.segments@.map_values(|g: PathSegment| g@) }
    }
}

/// A segment read from a pair: `..` when that is its text, else a node read from the pairs
/// inside it. `None` where one of those is neither an identifier nor a node name.
pub open spec fn sp_segment(p: SpecPair) -> Option<SpecSegment> {
    if p.text == seq!['.', '.'] {
        Some(SpecSegment::DotDot)
    } else {
        segment_parts(p.inner, seq![], None)
    }
}

/// A node segment read from the pairs `v` in order: an identifier gives the type of the node, a
/// node name its name, each one replacing what came before
pub open spec fn segment_parts(v: Seq<SpecPair>, node: Seq<char>, name: Option<Seq<char>>) -> Option<
    SpecSegment,
>
    decreases v.len(),
{
    if v.len() == 0 {
        Some(SpecSegment::NodeName { node, name, index: None })
    } else {
        let rest = v.subrange(1, v.len() as int);
        match v[0].rule {
            Rule::Identifier => segment_parts(rest, v[0].text, name),
            Rule::NameBlock => segment_parts(rest, node, Some(v[0].text)),
            _ => None,
        }
    }
}

/// A path read from a pair: it starts at the top level when its text starts with `@`, in the
/// current top level node when it starts with `/`; its segments are read from the pairs inside
/// it. `None` where one of those is not a path segment, or is a segment that cannot be read.
pub open spec fn sp_tree_path(p: SpecPair) -> Option<SpecTreePath> {
    let start = if p.text.len() > 0 && p.text[0] == '@' {
        Some(PathStart::TopLevel)
    } else if p.text.len() > 0 && p.text[0] == '/' {
        Some(PathStart::CurrentTopLevel)
    } else {
        None
    };
    match segments_from(p.inner) {
        Some(g) => Some(SpecTreePath { start, segments: g }),
        None => None,
    }
}

/// The segments read from the pairs `v`, in order
pub open spec fn segments_from(v: Seq<SpecPair>) -> Option<Seq<SpecSegment>>
    decreases v.len(),
{
    if v.len() == 0 {
        Some(seq![])
    } else if v.last().rule != Rule::PathSegment {
        None
    } else {
        match (segments_from(v.drop_last()), sp_segment(v.last())) {
            (Some(g), Some(x)) => Some(g.push(x)),
            _ => None,
        }
    }
}

/// How a segment is written, with its closing `/`
pub open spec fn segment_text(g: SpecSegment) -> Seq<char> {
    match g {
        SpecSegment::DotDot => seq!['.', '.', '/'],
        SpecSegment::NodeName { node, name, index } => node + (match name {
            Some(n) => n,
            None => seq![],
        }) + (match index {
            Some(i) => int_text(i as int),
            None => seq![],
        }) + seq!['/'],
    }
}

/// Segments written one after the other
pub open spec fn tree_segments_text(g: Seq<SpecSegment>) -> Seq<char>
    decreases g.len(),
{
    if g.len() == 0 {
        seq![]
    } else {
        tree_segments_text(g.drop_last()) + segment_text(g.last())
    }
}

/// How a path is written: its start, then its segments
pub open spec fn tree_path_text(p: SpecTreePath) -> Seq<char> {
    (match p.start {
        Some(st) => path_start_text(st),
        None => seq![],
    }) + tree_segments_text(p.segments)
}

impl PathSegment {
    /// Reads a segment from a pair of the parse tree
    pub fn try_from_pair(pair: &GrammarPair) -> (r: PathSegment)
        requires
            sp_segment(pair@) is Some,
        ensures
            sp_segment(pair@) == Some(r@),
    {
        proof {
            lemma_pairs_view(pair.inner@);
        }
        let t = pair.text.as_str();
        if t.unicode_len() == 2 && t.get_char(0) == '.' && t.get_char(1) == '.' {
            assert(pair@.text =~= seq!['.', '.']);
            return PathSegment::DotDot;
        }
        let ghost v = pair@.inner;
        assert(v.subrange(0, v.len() as int) =~= v);
        let mut node = String::new();
        let mut name: Option<String> = None;
        let mut k: usize = 0;
        while k < pair.inner.len()
            invariant
                k <= pair.inner@.len(),
                v == pair@.inner,
                v == pair.inner@.map_values(|x: GrammarPair| x@),
                sp_segment(pair@) is Some,
                sp_segment(pair@) == segment_parts(v.subrange(k as int, v.len() as int), node@, opt_text(name)),
            decreases pair.inner.len() - k,
        {
            let q = &pair.inner[k];
            let ghost rest = v.subrange(k as int, v.len() as int);
            assert(rest[0] == q@);
            assert(rest.subrange(1, rest.len() as int) =~= v.subrange(k + 1, v.len() as int));
            match q.rule {
                Rule::Identifier => {
                    node = q.text.clone();
                },
                Rule::NameBlock => {
                    name = Some(q.text.clone());
                },
                _ => {},
            }
            k = k + 1;
        }
        assert(v.subrange(k as int, v.len() as int) =~= Seq::<SpecPair>::empty());
        PathSegment::NodeName { node, name, index: None }
    }

    /// How the segment is written, with its closing `/`
    pub fn to_string(&self) -> (r: String)
        ensures
            r@ == segment_text(self@),
    {
        let mut r = String::new();
        match self {
            PathSegment::DotDot => {
                push_char(&mut r, '.');
                push_char(&mut r, '.');
                push_char(&mut r, '/');
            },
            PathSegment::NodeName { node, name, index } => {
                r.append(node.as_str());
                match name {
                    Some(n) => r.append(n.as_str()),
                    None => {},
                }
                match index {
                    Some(i) => push_int(&mut r, *i as i64),
                    None => {},
                }
                push_char(&mut r, '/');
            },
        }
        assert(r@ =~= segment_text(self@));
        r
    }
}

impl Path {
    /// Reads a path from a pair of the parse tree
    pub fn try_from_pair(pair: &GrammarPair) -> (r: Path)
        requires
            sp_tree_path(pair@) is Some,
        ensures
            sp_tree_path(pair@) == Some(r@),
    {
        proof {
            lemma_pairs_view(pair.inner@);
        }
        let t = pair.text.as_str();
        let n = t.unicode_len();
        let start = if n > 0 && t.get_char(0) == '@' {
            Some(PathStart::TopLevel)
        } else if n > 0 && t.get_char(0) == '/' {
            Some(PathStart::CurrentTopLevel)
        } else {
            None
        };
        let ghost v = pair@.inner;
        let mut segments: Vec<PathSegment> = Vec::new();
        let mut k: usize = 0;
        while k < pair.inner.len()
            invariant
                k <= pair.inner@.len(),
                v == pair@.inner,
                v == pair.inner@.map_values(|x: GrammarPair| x@),
                segments_from(v) is Some,
                segments_from(v.take(k as int)) == Some(segments@.map_values(|g: PathSegment| g@)),
            decreases pair.inner.len() - k,
        {
            proof {
                lemma_segments_from_prefix(v, k as int + 1);
                assert(v.take(k + 1).drop_last() =~= v.take(k as int));
                assert(v.take(k + 1).last() == v[k as int]);
            }
            let g = PathSegment::try_from_pair(&pair.inner[k]);
            let ghost before = segments@;
            segments.push(g);
            assert(segments@.map_values(|g: PathSegment| g@) =~= before.map_values(|g: PathSegment| g@).push(g@));
            k = k + 1;
        }
        assert(v.take(k as int) =~= v);
        Path { start, segments }
    }

    /// How the path is written
    pub fn to_string(&self) -> (r: String)
        ensures
            r@ == tree_path_text(self@),
    {
        let mut r = String::new();
        match self.start {
            Some(PathStart::TopLevel) => push_char(&mut r, '@'),
            Some(PathStart::CurrentTopLevel) => push_char(&mut r, '/'),
            None => {},
        }
        let ghost head = r@;
        let ghost g = self@.segments;
        let mut k: usize = 0;
        while k < self.segments.len()
            invariant
                k <= self.segments@.len(),
                g == self@.segments,
                head == (match self.start {
                    Some(st) => path_start_text(st),
                    None => seq![],
                }),
                r@ == head + tree_segments_text(g.take(k as int)),
            decreases self.segments.len() - k,
        {
            let t = self.segments[k].to_string();
            r.append(t.as_str());
            assert(g.take(k + 1).drop_last() =~= g.take(k as int));
            k = k + 1;
        }
        assert(g.take(k as int) =~= g);
        r
    }
}

/// Segments read from a sequence of pairs can be read from each prefix of it
proof fn lemma_segments_from_prefix(v: Seq<SpecPair>, k: int)
    requires
        0 <= k <= v.len(),
        segments_from(v) is Some,
    ensures
        segments_from(v.take(k)) is Some,
        k > 0 ==> v[k - 1].rule == Rule::PathSegment && sp_segment(v[k - 1]) is Some,
    decreases v.len(),
{
    if k < v.len() {
        assert(v.drop_last().take(k) =~= v.take(k));
        lemma_segments_from_prefix(v.drop_last(), k);
        if k > 0 {
            assert(v.drop_last()[k - 1] == v[k - 1]);
        }
    } else {
        assert(v.take(k) =~= v);
    }
}

} // verus!
