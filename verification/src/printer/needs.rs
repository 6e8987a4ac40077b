//! NEEDS blocks read from the parse tree, and how they are written.
use vstd::prelude::*;
use vstd::string::*;
use super::{GrammarPair, Rule, SpecPair, lemma_pairs_view};
use crate::parser::needs::{SpecModClause, mod_clause_text};
use crate::text::push_char;

verus! {

/// A mod that is needed (or not) for the clause to be satisfied
#[derive(Debug, Clone, PartialEq, Eq)]
pub struct ModClause {
    /// If true, the mod should not be present for the clause to be satisfied
    pub negated: bool,
    /// Name of the mod to check for
    pub name: String,
}

impl View for ModClause {
    type V = SpecModClause;

    open spec fn view(&self) -> SpecModClause {
        SpecModClause { negated: self.negated, name: self.name@ }
    }
}

/// Mods combined with logical ORs
#[derive(Debug, Clone, PartialEq, Eq)]
pub struct OrClause {
    /// The mods, any of which satisfies the clause
    pub mod_clauses: Vec<ModClause>,
}

impl View for OrClause {
    type V = Seq<SpecModClause>;

    open spec fn view(&self) -> Seq<SpecModClause> {
        self.mod_clauses@.map_values(|m: ModClause| m@)
    }
}

/// Clauses combined with logical ANDs
#[derive(Debug, Clone, PartialEq, Eq)]
pub struct NeedsBlock {
    /// The clauses, all of which have to be satisfied
    pub or_clauses: Vec<OrClause>,
}

impl View for NeedsBlock {
    type V = Seq<Seq<SpecModClause>>;

    open spec fn view(&self) -> Seq<Seq<SpecModClause>> {
        self.or_clauses@.map_values(|o: OrClause| o@)
    }
}

/// Why a NEEDS block could not be read
#[derive(Debug, Clone, PartialEq, Eq)]
pub struct NeedsBlockError {
    /// What went wrong
    pub text: String,
}

/// The message of the error for a pair that is neither a negation nor a mod name
pub open spec fn unexpected_rule_text() -> Seq<char> {
    "Got unexpected rule"@
}

/// A mod read from the pairs `v` in order: a negation makes it negated, a mod name gives its
/// name, replacing the one before; a pair of any other rule is an error
pub open spec fn mod_parts(v: Seq<SpecPair>, negated: bool, name: Seq<char>) -> Result<SpecModClause, Seq<char>>
    decreases v.len(),
{
    if v.len() == 0 {
        Ok(SpecModClause { negated, name })
    } else {
        let rest = v.subrange(1, v.len() as int);
        match v[0].rule {
            Rule::Negation => mod_parts(rest, true, name),
            Rule::ModName => mod_parts(rest, negated, v[0].text),
            _ => Err(unexpected_rule_text()),
        }
    }
}

/// A mod read from a pair: from the pairs inside it
pub open spec fn sp_mod_clause(p: SpecPair) -> Result<SpecModClause, Seq<char>> {
    mod_parts(p.inner, false, seq![])
}

/// The mods read from the pairs `v`, after those in `done`, up to the first error. `None` where
/// a pair is not a mod.
pub open spec fn or_parts(v: Seq<SpecPair>, done: Seq<SpecModClause>) -> Option<Result<Seq<SpecModClause>, Seq<char>>>
    decreases v.len(),
{
    if v.len() == 0 {
        Some(Ok(done))
    } else if v[0].rule != Rule::NeedsMod {
        None
    } else {
        match sp_mod_clause(v[0]) {
            Ok(m) => or_parts(v.subrange(1, v.len() as int), done.push(m)),
            Err(t) => Some(Err(t)),
        }
    }
}

/// An OR clause read from a pair: a mod from each pair inside it
pub open spec fn sp_or_clause(p: SpecPair) -> Option<Result<Seq<SpecModClause>, Seq<char>>> {
    or_parts(p.inner, seq![])
}

/// The OR clauses read from the pairs `v`, after those in `done`, up to the first error. `None`
/// where a pair is not an OR clause, or is one that cannot be read.
pub open spec fn needs_parts(v: Seq<SpecPair>, done: Seq<Seq<SpecModClause>>) -> Option<
    Result<Seq<Seq<SpecModClause>>, Seq<char>>,
>
    decreases v.len(),
{
    if v.len() == 0 {
        Some(Ok(done))
    } else if v[0].rule != Rule::ModOrClause {
        None
    } else {
        match sp_or_clause(v[0]) {
            Some(Ok(o)) => needs_parts(v.subrange(1, v.len() as int), done.push(o)),
            Some(Err(t)) => Some(Err(t)),
            None => None,
        }
    }
}

/// A NEEDS block read from a pair: an OR clause from each pair inside it
pub open spec fn sp_tree_needs(p: SpecPair) -> Option<Result<Seq<Seq<SpecModClause>>, Seq<char>>> {
    needs_parts(p.inner, seq![])
}

/// Mods written one after the other, separated by `|`
pub open spec fn mods_text(o: Seq<SpecModClause>) -> Seq<char>
    decreases o.len(),
{
    if o.len() == 0 {
        seq![]
    } else if o.len() == 1 {
        mod_clause_text(o[0])
    } else {
        mods_text(o.drop_last()) + seq!['|'] + mod_clause_text(o.last())
    }
}

/// OR clauses written one after the other, separated by `,`
pub open spec fn clauses_text(c: Seq<Seq<SpecModClause>>) -> Seq<char>
    decreases c.len(),
{
    if c.len() == 0 {
        seq![]
    } else if c.len() == 1 {
        mods_text(c[0])
    } else {
        clauses_text(c.drop_last()) + seq![','] + mods_text(c.last())
    }
}

/// How a NEEDS block is written
pub open spec fn tree_needs_text(c: Seq<Seq<SpecModClause>>) -> Seq<char> {
    ":NEEDS["@ + clauses_text(c) + seq![']']
}

impl ModClause {
    /// Reads a mod from a pair of the parse tree
    pub fn try_from_pair(pair: &GrammarPair) -> (r: Result<ModClause, NeedsBlockError>)
        ensures
            sp_mod_clause(pair@) == (match r {
                Ok(m) => Ok(m@),
                Err(e) => Err(e.text@),
            }),
    {
        proof {
            lemma_pairs_view(pair.inner@);
        }
        let ghost v = pair@.inner;
        assert(v.subrange(0, v.len() as int) =~= v);
        let mut negated = false;
        let mut name = String::new();
        let mut k: usize = 0;
        while k < pair.inner.len()
            invariant
                k <= pair.inner@.len(),
                v == pair@.inner,
                v == pair.inner@.map_values(|x: GrammarPair| x@),
                sp_mod_clause(pair@) == mod_parts(v.subrange(k as int, v.len() as int), negated, name@),
            decreases pair.inner.len() - k,
        {
            let q = &pair.inner[k];
            let ghost rest = v.subrange(k as int, v.len() as int);
            assert(rest[0] == q@);
            assert(rest.subrange(1, rest.len() as int) =~= v.subrange(k + 1, v.len() as int));
            match q.rule {
                Rule::Negation => {
                    negated = true;
                },
                Rule::ModName => {
                    name = q.text.clone();
                },
                _ => {
                    proof {
                        reveal_strlit("Got unexpected rule");
                    }
                    return Err(NeedsBlockError { text: String::from_str("Got unexpected rule") });
                },
            }
            k = k + 1;
        }
        assert(v.subrange(k as int, v.len() as int) =~= Seq::<SpecPair>::empty());
        Ok(ModClause { negated, name })
    }

    /// How the mod is written: its name, after `!` when negated
    pub fn to_string(&self) -> (r: String)
        ensures
            r@ == mod_clause_text(self@),
    {
        let mut r = String::new();
        if self.negated {
            push_char(&mut r, '!');
        }
        r.append(self.name.as_str());
        r
    }
}

impl OrClause {
    /// Reads an OR clause from a pair of the parse tree
    pub fn try_from_pair(pair: &GrammarPair) -> (r: Result<OrClause, NeedsBlockError>)
        requires
            sp_or_clause(pair@) is Some,
        ensures
            sp_or_clause(pair@) == Some(
                match r {
                    Ok(o) => Ok(o@),
                    Err(e) => Err(e.text@),
                },
            ),
    {
        proof {
            lemma_pairs_view(pair.inner@);
        }
        let ghost v = pair@.inner;
        assert(v.subrange(0, v.len() as int) =~= v);
        let mut mod_clauses: Vec<ModClause> = Vec::new();
        assert(mod_clauses@.map_values(|m: ModClause| m@) =~= Seq::<SpecModClause>::empty());
        let mut k: usize = 0;
        while k < pair.inner.len()
            invariant
                k <= pair.inner@.len(),
                v == pair@.inner,
                v == pair.inner@.map_values(|x: GrammarPair| x@),
                sp_or_clause(pair@) is Some,
                sp_or_clause(pair@) == or_parts(
                    v.subrange(k as int, v.len() as int),
                    mod_clauses@.map_values(|m: ModClause| m@),
                ),
            decreases pair.inner.len() - k,
        {
            let q = &pair.inner[k];
            let ghost rest = v.subrange(k as int, v.len() as int);
            assert(rest[0] == q@);
            assert(rest.subrange(1, rest.len() as int) =~= v.subrange(k + 1, v.len() as int));
            match ModClause::try_from_pair(q) {
                Ok(m) => {
                    let ghost before = mod_clauses@;
                    mod_clauses.push(m);
                    assert(mod_clauses@.map_values(|m: ModClause| m@) =~= before.map_values(|m: ModClause| m@).push(
                        m@,
                    ));
                },
                Err(e) => {
                    return Err(e);
                },
            }
            k = k + 1;
        }
        assert(v.subrange(k as int, v.len() as int) =~= Seq::<SpecPair>::empty());
        Ok(OrClause { mod_clauses })
    }

    /// How the clause is written: its mods, separated by `|`
    pub fn to_string(&self) -> (r: String)
        ensures
            r@ == mods_text(self@),
    {
        let ghost o = self@;
        let mut r = String::new();
        let mut k: usize = 0;
        while k < self.mod_clauses.len()
            invariant
                k <= self.mod_clauses@.len(),
                o == self@,
                r@ == mods_text(o.take(k as int)),
            decreases self.mod_clauses.len() - k,
        {
            if k > 0 {
                push_char(&mut r, '|');
            }
            let t = self.mod_clauses[k].to_string();
            r.append(t.as_str());
            assert(o.take(k + 1).drop_last() =~= o.take(k as int));
            k = k + 1;
        }
        assert(o.take(k as int) =~= o);
        r
    }
}

impl NeedsBlock {
    /// Reads a NEEDS block from a pair of the parse tree
    pub fn try_from_pair(pair: &GrammarPair) -> (r: Result<NeedsBlock, NeedsBlockError>)
        requires
            sp_tree_needs(pair@) is Some,
        ensures
            sp_tree_needs(pair@) == Some(
                match r {
                    Ok(b) => Ok(b@),
                    Err(e) => Err(e.text@),
                },
            ),
    {
        proof {
            lemma_pairs_view(pair.inner@);
        }
        let ghost v = pair@.inner;
        assert(v.subrange(0, v.len() as int) =~= v);
        let mut or_clauses: Vec<OrClause> = Vec::new();
        assert(or_clauses@.map_values(|o: OrClause| o@) =~= Seq::<Seq<SpecModClause>>::empty());
        let mut k: usize = 0;
        while k < pair.inner.len()
            invariant
                k <= pair.inner@.len(),
                v == pair@.inner,
                v == pair.inner@.map_values(|x: GrammarPair| x@),
                sp_tree_needs(pair@) is Some,
                sp_tree_needs(pair@) == needs_parts(
                    v.subrange(k as int, v.len() as int),
                    or_clauses@.map_values(|o: OrClause| o@),
                ),
            decreases pair.inner.len() - k,
        {
            let q = &pair.inner[k];
            let ghost rest = v.subrange(k as int, v.len() as int);
            assert(rest[0] == q@);
            assert(rest.subrange(1, rest.len() as int) =~= v.subrange(k + 1, v.len() as int));
            match OrClause::try_from_pair(q) {
                Ok(o) => {
                    let ghost before = or_clauses@;
                    or_clauses.push(o);
                    assert(or_clauses@.map_values(|o: OrClause| o@) =~= before.map_values(|o: OrClause| o@).push(
                        o@,
                    ));
                },
                Err(e) => {
                    return Err(e);
                },
            }
            k = k + 1;
        }
        assert(v.subrange(k as int, v.len() as int) =~= Seq::<SpecPair>::empty());
        Ok(NeedsBlock { or_clauses })
    }

    /// How the block is written: `:NEEDS[`, its clauses separated by `,`, and `]`
    pub fn to_string(&self) -> (r: String)
        ensures
            r@ == tree_needs_text(self@),
    {
        let ghost c = self@;
        let mut body = String::new();
        let mut k: usize = 0;
        while k < self.or_clauses.len()
            invariant
                k <= self.or_clauses@.len(),
                c == self@,
                body@ == clauses_text(c.take(k as int)),
            decreases self.or_clauses.len() - k,
        {
            if k > 0 {
                push_char(&mut body, ',');
            }
            let t = self.or_clauses[k].to_string();
            body.append(t.as_str());
            assert(c.take(k + 1).drop_last() =~= c.take(k as int));
            k = k + 1;
        }
        assert(c.take(k as int) =~= c);
        let mut r = String::from_str(":NEEDS[");
        proof {
            reveal_strlit(":NEEDS[");
        }
        r.append(body.as_str());
        push_char(&mut r, ']');
        r
    }
}

} // verus!
