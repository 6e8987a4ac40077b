//! HAS blocks read from the parse tree, and how they are written.
use vstd::prelude::*;
use vstd::string::*;
use super::{GrammarPair, Rule, SpecPair, lemma_pairs_view};
use crate::parser::has::{MatchType, match_type_text};
use crate::text::push_char;

verus! {

/// Predicate to filter nodes for which to run an operation
#[derive(Debug, PartialEq, Eq)]
pub enum Predicate {
    /// A predicate relating to a node
    NodePredicate {
        /// If true, the node should not be present for the predicate to be satisfied
        negated: bool,
        /// Type of the node, eg: `PART`
        node_type: String,
        /// Optional name of the node, as it was matched
        name: Option<String>,
        /// Optional HAS-block to further match on content of node
        has_block: Option<HasBlock>,
    },
    /// A predicate relating to a variable
    KeyPredicate {
        /// If true, the variable should not be present for the predicate to be satisfied
        negated: bool,
        /// Variable name to check for
        key: String,
        /// Optional value of the variable to check for
        value: Option<String>,
        /// Match type, `<`, ` `, `>`
        match_type: MatchType,
    },
}

/// Contains all the predicates to be combined using logical ANDs
#[derive(Debug, PartialEq, Eq)]
pub struct HasBlock {
    /// The predicates, all of which have to be satisfied
    pub predicates: Vec<Predicate>,
}

/// The text of a pair that could not be read as part of a HAS block
#[derive(Debug, Clone, PartialEq, Eq)]
pub struct HasBlockError {
    /// The text of the pair
    pub text: String,
}

/// A [`Predicate`] with its texts as character sequences, and its HAS block as the sequence of
/// its predicates
pub enum SpecPredicate {
    /// A predicate on a node
    Node {
        /// The node must be absent
        negated: bool,
        /// Type of the node
        node_type: Seq<char>,
        /// Optional name of the node
        name: Option<Seq<char>>,
        /// Optional HAS block on the node's content
        has_block: Option<Seq<SpecPredicate>>,
    },
    /// A predicate on a key
    Key {
        /// The key must be absent
        negated: bool,
        /// The key
        key: Seq<char>,
        /// Optional value
        value: Option<Seq<char>>,
        /// How the value is compared
        match_type: MatchType,
    },
}

/// The view of an optional text
pub open spec fn opt_text(t: Option<String>) -> Option<Seq<char>> {
    match t {
        Some(s) => Some(s@),
        None => None,
    }
}

/// The view of a predicate
pub open spec fn predicate_view(p: Predicate) -> SpecPredicate
    decreases p,
{
    match p {
        Predicate::NodePredicate { negated, node_type, name, has_block } => SpecPredicate::Node {
            negated,
            node_type: node_type@,
            name: opt_text(name),
            has_block: match has_block {
                Some(b) => Some(predicates_view(b.predicates@)),
                None => None,
            },
        },
        Predicate::KeyPredicate { negated, key, value, match_type } => SpecPredicate::Key {
            negated,
            key: key@,
            value: opt_text(value),
            match_type,
        },
    }
}

/// The views of a sequence of predicates
pub open spec fn predicates_view(v: Seq<Predicate>) -> Seq<SpecPredicate>
    decreases v,
{
    if v.len() == 0 {
        seq![]
    } else {
        predicates_view(v.drop_last()).push(predicate_view(v.last()))
    }
}

impl View for Predicate {
    type V = SpecPredicate;

    open spec fn view(&self) -> SpecPredicate {
        predicate_view(*self)
    }
}

impl View for HasBlock {
    type V = Seq<SpecPredicate>;

    open spec fn view(&self) -> Seq<SpecPredicate> {
        predicates_view(self.predicates@)
    }
}

/// The views of the predicates are the predicates' views, one by one
pub proof fn lemma_predicates_view(v: Seq<Predicate>)
    ensures
        predicates_view(v) == v.map_values(|x: Predicate| x@),
    decreases v.len(),
{
    if v.len() > 0 {
        lemma_predicates_view(v.drop_last());
        assert(v.map_values(|x: Predicate| x@) =~= v.drop_last().map_values(|x: Predicate| x@).push(
            v.last()@,
        ));
    } else {
        assert(v.map_values(|x: Predicate| x@) =~= Seq::<SpecPredicate>::empty());
    }
}

/// A predicate read from a pair. The first character of the pair's text tells a predicate on a
/// node (`@`, or `!` when negated) from one on a key (`#`, or `~` when negated); any other
/// character is an error holding the text. `None` where the pair's text is empty, or where one
/// of the predicates inside is.
pub open spec fn sp_predicate(p: SpecPair) -> Option<Result<SpecPredicate, Seq<char>>>
    decreases p,
{
    if p.text.len() == 0 {
        None
    } else if p.text[0] == '@' || p.text[0] == '!' {
        node_parts(p.inner, p.text[0] != '@', seq![], None, None)
    } else if p.text[0] == '#' || p.text[0] == '~' {
        Some(key_parts(p.inner, p.text[0] != '#', seq![], None, MatchType::Literal))
    } else {
        Some(Err(p.text))
    }
}

/// A predicate on a node, read from the pairs `v` in order: an identifier gives the type of the
/// node, a node name its name, a HAS block its HAS block, each one replacing what came before;
/// the first pair of any other rule is an error holding its text
pub open spec fn node_parts(
    v: Seq<SpecPair>,
    negated: bool,
    node_type: Seq<char>,
    name: Option<Seq<char>>,
    has_block: Option<Seq<SpecPredicate>>,
) -> Option<Result<SpecPredicate, Seq<char>>>
    decreases v,
{
    if v.len() == 0 {
        Some(Ok(SpecPredicate::Node { negated, node_type, name, has_block }))
    } else {
        let rest = v.subrange(1, v.len() as int);
        match v[0].rule {
            Rule::Identifier => node_parts(rest, negated, v[0].text, name, has_block),
            Rule::HasNodeName => node_parts(rest, negated, node_type, Some(v[0].text), has_block),
            Rule::HasBlock => match sp_has_block(v[0]) {
                Some(Ok(b)) => node_parts(rest, negated, node_type, name, Some(b)),
                Some(Err(t)) => Some(Err(t)),
                None => None,
            },
            _ => Some(Err(v[0].text)),
        }
    }
}

/// The value of a predicate on a key, and how it is compared: a leading `<` or `>` is taken
/// off and sets the comparison; without one the comparison stays `current`
pub open spec fn has_value(t: Seq<char>, current: MatchType) -> (Seq<char>, MatchType) {
    if t.len() > 0 && t[0] == '<' {
        (t.subrange(1, t.len() as int), MatchType::LessThan)
    } else if t.len() > 0 && t[0] == '>' {
        (t.subrange(1, t.len() as int), MatchType::GreaterThan)
    } else {
        (t, current)
    }
}

/// A predicate on a key, read from the pairs `v` in order: an identifier gives the key, a value
/// the value and how it is compared, each one replacing what came before; the first pair of any
/// other rule is an error holding its text
pub open spec fn key_parts(
    v: Seq<SpecPair>,
    negated: bool,
    key: Seq<char>,
    value: Option<Seq<char>>,
    match_type: MatchType,
) -> Result<SpecPredicate, Seq<char>>
    decreases v.len(),
{
    if v.len() == 0 {
        Ok(SpecPredicate::Key { negated, key, value, match_type })
    } else {
        let rest = v.subrange(1, v.len() as int);
        match v[0].rule {
            Rule::Identifier => key_parts(rest, negated, v[0].text, value, match_type),
            Rule::HasValue => {
                let (t, m) = has_value(v[0].text, match_type);
                key_parts(rest, negated, key, Some(t), m)
            },
            _ => Err(v[0].text),
        }
    }
}

/// A HAS block read from a pair: the predicates read from the pairs inside it, in order, up to
/// the first error. `None` where the pair is not a HAS block, or where a predicate inside would
/// be read from an empty text.
pub open spec fn sp_has_block(p: SpecPair) -> Option<Result<Seq<SpecPredicate>, Seq<char>>>
    decreases p,
{
    if p.rule != Rule::HasBlock {
        None
    } else {
        has_parts(p.inner, seq![])
    }
}

/// The predicates read from the pairs `v`, after those in `done`
pub open spec fn has_parts(v: Seq<SpecPair>, done: Seq<SpecPredicate>) -> Option<
    Result<Seq<SpecPredicate>, Seq<char>>,
>
    decreases v,
{
    if v.len() == 0 {
        Some(Ok(done))
    } else {
        match sp_predicate(v[0]) {
            Some(Ok(q)) => has_parts(v.subrange(1, v.len() as int), done.push(q)),
            Some(Err(t)) => Some(Err(t)),
            None => None,
        }
    }
}

/// The view of what reading a predicate gave
pub open spec fn predicate_result(r: Result<Predicate, HasBlockError>) -> Result<SpecPredicate, Seq<char>> {
    match r {
        Ok(p) => Ok(p@),
        Err(e) => Err(e.text@),
    }
}

/// The view of what reading a HAS block gave
pub open spec fn has_block_result(r: Result<HasBlock, HasBlockError>) -> Result<Seq<SpecPredicate>, Seq<char>> {
    match r {
        Ok(b) => Ok(b@),
        Err(e) => Err(e.text@),
    }
}

/// How a predicate is written: `@` or `!`, the type, the name and the HAS block of a node; `#`
/// or `~`, the key and, in brackets, the comparison and the value of a key
pub open spec fn predicate_text(p: SpecPredicate) -> Seq<char>
    decreases p,
{
    match p {
        SpecPredicate::Node { negated, node_type, name, has_block } => (if negated {
            seq!['!']
        } else {
            seq!['@']
        }) + node_type + (match name {
            Some(n) => n,
            None => seq![],
        }) + (match has_block {
            Some(b) => if b.len() == 0 {
                seq![]
            } else {
                ":HAS["@ + predicates_text(b) + seq![']']
            },
            None => seq![],
        }),
        SpecPredicate::Key { negated, key, value, match_type } => (if negated {
            seq!['~']
        } else {
            seq!['#']
        }) + key + (match value {
            Some(v) => seq!['['] + match_type_text(match_type) + v + seq![']'],
            None => seq![],
        }),
    }
}

/// Predicates written one after the other, separated by `,`
pub open spec fn predicates_text(q: Seq<SpecPredicate>) -> Seq<char>
    decreases q,
{
    if q.len() == 0 {
        seq![]
    } else if q.len() == 1 {
        predicate_text(q[0])
    } else {
        predicates_text(q.drop_last()) + seq![','] + predicate_text(q.last())
    }
}

/// How a HAS block is written; one without predicates is not written at all
pub open spec fn has_text(q: Seq<SpecPredicate>) -> Seq<char> {
    if q.len() == 0 {
        seq![]
    } else {
        ":HAS["@ + predicates_text(q) + seq![']']
    }
}

/// A copy of a text
fn copy_text(s: &String) -> (r: String)
    ensures
        r@ == s@,
{
    s.clone()
}

impl Predicate {
    /// Reads a predicate from a pair of the parse tree
    pub fn try_from_pair(pair: &GrammarPair) -> (r: Result<Predicate, HasBlockError>)
        requires
            sp_predicate(pair@) is Some,
        ensures
            sp_predicate(pair@) == Some(predicate_result(r)),
        decreases pair,
    {
        proof {
            lemma_pairs_view(pair.inner@);
        }
        let ghost v = pair@.inner;
        assert(v.subrange(0, v.len() as int) =~= v);
        let first_char = pair.text.as_str().get_char(0);
        if first_char == '@' || first_char == '!' {
            let negated = first_char != '@';
            let mut node_type = String::new();
            let mut name: Option<String> = None;
            let mut has_block: Option<HasBlock> = None;
            let mut k: usize = 0;
            while k < pair.inner.len()
                invariant
                    k <= pair.inner@.len(),
                    v == pair@.inner,
                    v == pair.inner@.map_values(|x: GrammarPair| x@),
                    sp_predicate(pair@) is Some,
                    sp_predicate(pair@) == node_parts(
                        v.subrange(k as int, v.len() as int),
                        negated,
                        node_type@,
                        opt_text(name),
                        match has_block {
                            Some(b) => Some(b@),
                            None => None,
                        },
                    ),
                decreases pair.inner.len() - k,
            {
                let q = &pair.inner[k];
                let ghost rest = v.subrange(k as int, v.len() as int);
                assert(rest[0] == q@);
                assert(rest.subrange(1, rest.len() as int) =~= v.subrange(k + 1, v.len() as int));
                match q.rule {
                    Rule::Identifier => {
                        node_type = copy_text(&q.text);
                    },
                    Rule::HasNodeName => {
                        name = Some(copy_text(&q.text));
                    },
                    Rule::HasBlock => {
                        match HasBlock::try_from_pair(q) {
                            Ok(b) => {
                                has_block = Some(b);
                            },
                            Err(e) => {
                                return Err(e);
                            },
                        }
                    },
                    _ => {
                        return Err(HasBlockError { text: copy_text(&q.text) });
                    },
                }
                k = k + 1;
            }
            assert(v.subrange(k as int, v.len() as int) =~= Seq::<SpecPair>::empty());
            Ok(Predicate::NodePredicate { negated, node_type, name, has_block })
        } else if first_char == '#' || first_char == '~' {
            let negated = first_char != '#';
            let mut key = String::new();
            let mut value: Option<String> = None;
            let mut match_type = MatchType::Literal;
            let mut k: usize = 0;
            while k < pair.inner.len()
                invariant
                    k <= pair.inner@.len(),
                    v == pair@.inner,
                    v == pair.inner@.map_values(|x: GrammarPair| x@),
                    sp_predicate(pair@) == Some(
                        key_parts(v.subrange(k as int, v.len() as int), negated, key@, opt_text(value), match_type),
                    ),
                decreases pair.inner.len() - k,
            {
                let q = &pair.inner[k];
                let ghost rest = v.subrange(k as int, v.len() as int);
                assert(rest[0] == q@);
                assert(rest.subrange(1, rest.len() as int) =~= v.subrange(k + 1, v.len() as int));
                match q.rule {
                    Rule::Identifier => {
                        key = copy_text(&q.text);
                    },
                    Rule::HasValue => {
                        let t = q.text.as_str();
                        let n = t.unicode_len();
                        if n > 0 && t.get_char(0) == '<' {
                            match_type = MatchType::LessThan;
                            value = Some(String::from_str(t.substring_char(1, n)));
                        } else if n > 0 && t.get_char(0) == '>' {
                            match_type = MatchType::GreaterThan;
                            value = Some(String::from_str(t.substring_char(1, n)));
                        } else {
                            value = Some(copy_text(&q.text));
                        }
                    },
                    _ => {
                        return Err(HasBlockError { text: copy_text(&q.text) });
                    },
                }
                k = k + 1;
            }
            assert(v.subrange(k as int, v.len() as int) =~= Seq::<SpecPair>::empty());
            Ok(Predicate::KeyPredicate { negated, key, value, match_type })
        } else {
            Err(HasBlockError { text: copy_text(&pair.text) })
        }
    }

    /// How the predicate is written
    pub fn to_string(&self) -> (r: String)
        ensures
            r@ == predicate_text(self@),
        decreases self,
    {
        let mut r = String::new();
        match self {
            Predicate::NodePredicate { negated, node_type, name, has_block } => {
                push_char(&mut r, if *negated { '!' } else { '@' });
                r.append(node_type.as_str());
                match name {
                    Some(n) => r.append(n.as_str()),
                    None => {},
                }
                match has_block {
                    Some(b) => {
                        let t = b.to_string();
                        r.append(t.as_str());
                    },
                    None => {},
                }
            },
            Predicate::KeyPredicate { negated, key, value, match_type } => {
                push_char(&mut r, if *negated { '~' } else { '#' });
                r.append(key.as_str());
                match value {
                    Some(v) => {
                        push_char(&mut r, '[');
                        let m = match_type.to_string();
                        r.append(m.as_str());
                        r.append(v.as_str());
                        push_char(&mut r, ']');
                    },
                    None => {},
                }
            },
        }
        assert(r@ =~= predicate_text(self@));
        r
    }
}

impl HasBlock {
    /// Reads a HAS block from a pair of the parse tree: a predicate from each pair inside it
    pub fn try_from_pair(pair: &GrammarPair) -> (r: Result<HasBlock, HasBlockError>)
        requires
            sp_has_block(pair@) is Some,
        ensures
            sp_has_block(pair@) == Some(has_block_result(r)),
        decreases pair,
    {
        proof {
            lemma_pairs_view(pair.inner@);
        }
        let ghost v = pair@.inner;
        assert(v.subrange(0, v.len() as int) =~= v);
        let mut predicates: Vec<Predicate> = Vec::new();
        let mut k: usize = 0;
        while k < pair.inner.len()
            invariant
                k <= pair.inner@.len(),
                v == pair@.inner,
                v == pair.inner@.map_values(|x: GrammarPair| x@),
                sp_has_block(pair@) is Some,
                sp_has_block(pair@) == has_parts(v.subrange(k as int, v.len() as int), predicates_view(predicates@)),
            decreases pair.inner.len() - k,
        {
            let q = &pair.inner[k];
            let ghost rest = v.subrange(k as int, v.len() as int);
            assert(rest[0] == q@);
            assert(rest.subrange(1, rest.len() as int) =~= v.subrange(k + 1, v.len() as int));
            match Predicate::try_from_pair(q) {
                Ok(p) => {
                    let ghost before = predicates@;
                    predicates.push(p);
                    assert(predicates@.drop_last() =~= before);
                },
                Err(e) => {
                    return Err(e);
                },
            }
            k = k + 1;
        }
        assert(v.subrange(k as int, v.len() as int) =~= Seq::<SpecPair>::empty());
        Ok(HasBlock { predicates })
    }

    /// How the HAS block is written; one without predicates gives an empty text
    pub fn to_string(&self) -> (r: String)
        ensures
            r@ == has_text(self@),
        decreases self,
    {
        proof {
            lemma_predicates_view(self.predicates@);
        }
        if self.predicates.len() == 0 {
            return String::new();
        }
        let mut body = String::new();
        let mut k: usize = 0;
        while k < self.predicates.len()
            invariant
                k <= self.predicates@.len(),
                self@ == self.predicates@.map_values(|x: Predicate| x@),
                body@ == predicates_text(self@.take(k as int)),
            decreases self.predicates.len() - k,
        {
            if k > 0 {
                push_char(&mut body, ',');
            }
            let t = self.predicates[k].to_string();
            body.append(t.as_str());
            assert(self@.take(k + 1).drop_last() == self@.take(k as int));
            k = k + 1;
        }
        assert(self@.take(self@.len() as int) == self@);
        let mut r = String::from_str(":HAS[");
        proof {
            reveal_strlit(":HAS[");
        }
        r.append(body.as_str());
        push_char(&mut r, ']');
        r
    }
}

} // verus!
