//! The parse tree that the config grammar gives, and the syntax types that are built from it.
//!
//! A pair of the tree is the rule that matched, the text it matched, and the pairs matched
//! inside it, in order. The types here are read from such pairs and printed back.
use vstd::prelude::*;

pub mod has;
pub mod needs;
pub mod pass;
pub mod path;

verus! {

/// The rules of the config grammar
#[derive(Debug, Clone, Copy, PartialEq, Eq, Structural)]
pub enum Rule {
    /// The end of the input
    Eoi,
    /// A whole file
    Document,
    /// A statement of a file
    Statement,
    /// `{`
    OpeningBracket,
    /// `}`
    ClosingBracket,
    /// A node with its block
    Node,
    /// A key-value pair
    Assignment,
    /// A name: the type of a node, a key
    Identifier,
    /// The value of an assignment
    Value,
    /// A comment
    Comment,
    /// Spaces and tabs
    Whitespace,
    /// A line with nothing on it
    EmptyLine,
    /// A line ending
    Newline,
    /// The operator of an assignment
    AssignmentOperator,
    /// The part of a node in front of its block
    NodeBeforeBlock,
    /// The block of a node
    NodeBody,
    /// The name of a node, `[name]`
    NameBlock,
    /// The HAS, NEEDS and pass blocks of a node
    Blocks,
    /// A HAS block among the blocks of a node
    HasBranch,
    /// A NEEDS block among the blocks of a node
    NeedsBranch,
    /// A pass block among the blocks of a node
    PassBranch,
    /// `:HAS[...]`
    HasBlock,
    /// `:NEEDS[...]`
    NeedsBlock,
    /// Mods joined by `|`
    ModOrClause,
    /// A pass block
    PassBlock,
    /// `:FIRST`
    FirstPassBlock,
    /// `:BEFORE[..]`, `:FOR[..]`, `:AFTER[..]` or `:LAST[..]`
    NamedPassBlock,
    /// The name of a mod
    ModName,
    /// `:FINAL`
    FinalPassBlock,
    /// `:BEFORE[..]`
    BeforePass,
    /// `:FOR[..]`
    ForPass,
    /// `:LAST[..]`
    LastPass,
    /// `,n` after a node or key
    Index,
    /// `,n` of an array value
    ArrayIndex,
    /// The operator in front of a node or key
    Operator,
    /// A predicate of a HAS block
    HasBlockPart,
    /// A predicate on a node
    HasNode,
    /// A predicate on a key
    HasKey,
    /// The value of a predicate on a key
    HasValue,
    /// The key of an assignment
    KeyIdentifier,
    /// A path in front of a node or key
    Path,
    /// A segment of a path
    PathSegment,
    /// The name of a node in a predicate
    HasNodeName,
    /// `!` in front of a mod
    Negation,
    /// A mod of a NEEDS block
    NeedsMod,
}

/// A pair of the parse tree: the rule that matched, the text it matched, and the pairs
/// matched inside it, in order
#[derive(Debug, PartialEq, Eq)]
pub struct GrammarPair {
    /// The rule that matched
    pub rule: Rule,
    /// The text that was matched
    pub text: String,
    /// The pairs matched inside this one
    pub inner: Vec<GrammarPair>,
}

/// A pair with its texts as character sequences
pub struct SpecPair {
    /// The rule that matched
    pub rule: Rule,
    /// The text that was matched
    pub text: Seq<char>,
    /// The pairs matched inside this one
    pub inner: Seq<SpecPair>,
}

/// The view of a pair
pub open spec fn pair_view(p: GrammarPair) -> SpecPair
    decreases p,
{
    SpecPair { rule: p.rule, text: p.text@, inner: pairs_view(p.inner@) }
}

/// The views of a sequence of pairs
pub open spec fn pairs_view(v: Seq<GrammarPair>) -> Seq<SpecPair>
    decreases v,
{
    if v.len() == 0 {
        seq![]
    } else {
        pairs_view(v.drop_last()).push(pair_view(v.last()))
    }
}

impl View for GrammarPair {
    type V = SpecPair;

    open spec fn view(&self) -> SpecPair {
        pair_view(*self)
    }
}

/// The views of the pairs are the pairs' views, one by one
pub proof fn lemma_pairs_view(v: Seq<GrammarPair>)
    ensures
        pairs_view(v) == v.map_values(|x: GrammarPair| x@),
    decreases v.len(),
{
    if v.len() > 0 {
        lemma_pairs_view(v.drop_last());
        assert(v.map_values(|x: GrammarPair| x@) =~= v.drop_last().map_values(|x: GrammarPair| x@).push(
            v.last()@,
        ));
    } else {
        assert(v.map_values(|x: GrammarPair| x@) =~= Seq::<SpecPair>::empty());
    }
}

} // verus!
