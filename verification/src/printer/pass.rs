//! Pass blocks read from the parse tree, and how they are written.
use vstd::prelude::*;
use vstd::string::*;
use super::{GrammarPair, Rule, SpecPair, lemma_pairs_view};
use crate::text::push_char;

verus! {

/// The pass in which a patch is applied
#[derive(Debug, Clone, PartialEq, Eq)]
pub enum Pass {
    /// No pass given
    Default,
    /// `:FIRST`
    First,
    /// `:BEFORE[mod]`
    Before(String),
    /// `:FOR[mod]`
    For(String),
    /// `:AFTER[mod]`
    After(String),
    /// `:LAST[mod]`
    Last(String),
    /// `:FINAL`
    Final,
}

/// A [`Pass`] with the name of its mod as a character sequence
pub enum SpecTreePass {
    /// No pass given
    Default,
    /// `:FIRST`
    First,
    /// `:BEFORE[mod]`
    Before(Seq<char>),
    /// `:FOR[mod]`
    For(Seq<char>),
    /// `:AFTER[mod]`
    After(Seq<char>),
    /// `:LAST[mod]`
    Last(Seq<char>),
    /// `:FINAL`
    Final,
}

impl View for Pass {
    type V = SpecTreePass;

    open spec fn view(&self) -> SpecTreePass {
        match self {
            Pass::Default => SpecTreePass::Default,
            Pass::First => SpecTreePass::First,
            Pass::Before(m) => SpecTreePass::Before(m@),
            Pass::For(m) => SpecTreePass::For(m@),
            Pass::After(m) => SpecTreePass::After(m@),
            Pass::Last(m) => SpecTreePass::Last(m@),
            Pass::Final => SpecTreePass::Final,
        }
    }
}

/// A pass read from a pair, which holds exactly one pair: a `:FOR`, `:BEFORE` or `:LAST` pass,
/// named by the text of the first pair inside it, or `:FIRST`. `None` for any other shape.
pub open spec fn sp_tree_pass(p: SpecPair) -> Option<SpecTreePass> {
    if p.inner.len() != 1 {
        None
    } else {
        let q = p.inner[0];
        match q.rule {
            Rule::FirstPassBlock => Some(SpecTreePass::First),
            Rule::ForPass => if q.inner.len() > 0 { Some(SpecTreePass::For(q.inner[0].text)) } else { None },
            Rule::BeforePass => if q.inner.len() > 0 { Some(SpecTreePass::Before(q.inner[0].text)) } else { None },
            Rule::LastPass => if q.inner.len() > 0 { Some(SpecTreePass::Last(q.inner[0].text)) } else { None },
            _ => None,
        }
    }
}

/// How a pass is written; the final pass is written `FINAL`
pub open spec fn tree_pass_text(p: SpecTreePass) -> Seq<char> {
    match p {
        SpecTreePass::Default => seq![],
        SpecTreePass::First => ":FIRST"@,
        SpecTreePass::Before(m) => ":BEFORE["@ + m + seq![']'],
        SpecTreePass::For(m) => ":FOR["@ + m + seq![']'],
        SpecTreePass::After(m) => ":AFTER["@ + m + seq![']'],
        SpecTreePass::Last(m) => ":LAST["@ + m + seq![']'],
        SpecTreePass::Final => "FINAL"@,
    }
}

impl Pass {
    /// Reads a pass from a pair of the parse tree
    pub fn try_from_pair(pair: &GrammarPair) -> (r: Pass)
        requires
            sp_tree_pass(pair@) is Some,
        ensures
            sp_tree_pass(pair@) == Some(r@),
    {
        proof {
            lemma_pairs_view(pair.inner@);
        }
        let q = &pair.inner[0];
        proof {
            lemma_pairs_view(q.inner@);
        }
        match q.rule {
            Rule::ForPass => Pass::For(q.inner[0].text.clone()),
            Rule::BeforePass => Pass::Before(q.inner[0].text.clone()),
            Rule::LastPass => Pass::Last(q.inner[0].text.clone()),
            _ => Pass::First,
        }
    }

    /// How the pass is written
    pub fn to_string(&self) -> (r: String)
        ensures
            r@ == tree_pass_text(self@),
    {
        proof {
            reveal_strlit(":FIRST");
            reveal_strlit(":BEFORE[");
            reveal_strlit(":FOR[");
            reveal_strlit(":AFTER[");
            reveal_strlit(":LAST[");
            reveal_strlit("FINAL");
        }
        let (head, m) = match self {
            Pass::Default => {
                return String::new();
            },
            Pass::First => {
                return String::from_str(":FIRST");
            },
            Pass::Final => {
                return String::from_str("FINAL");
            },
            Pass::Before(m) => (":BEFORE[", m),
            Pass::For(m) => (":FOR[", m),
            Pass::After(m) => (":AFTER[", m),
            Pass::Last(m) => (":LAST[", m),
        };
        let mut r = String::from_str(head);
        r.append(m.as_str());
        push_char(&mut r, ']');
        r
    }
}

} // verus!
