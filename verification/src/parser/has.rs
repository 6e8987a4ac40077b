//! HAS blocks: the predicates that select the nodes a patch applies to.
use vstd::prelude::*;
use vstd::string::*;
use super::error::{Error, SpecError, errors_view, join_errors, no_errors, one_error};
use super::input::{Parsed, SParsed, Src, expect_error, wrap_range};
use super::indices::sp_close_bracket;
use super::lex::{is_id_char, line_ending, run_of, tag_at, tag_no_case_at, lemma_run_of};
use super::range::Ranged;
use crate::text::{is_alphanumeric, push_char, unicode_alphanumeric};

verus! {

/// Enum for the type of comparison to perform on a value
#[derive(Debug, Clone, Copy, PartialEq, Eq, Structural)]
pub enum MatchType {
    /// match the value literally
    Literal,
    /// a value greater than the specified value is a match
    GreaterThan,
    /// a value less than the specified value is a match
    LessThan,
}

impl Default for MatchType {
    fn default() -> (r: Self)
        ensures
            r == MatchType::Literal,
    {
        MatchType::Literal
    }
}

impl View for MatchType {
    type V = MatchType;

    open spec fn view(&self) -> MatchType {
        *self
    }
}

/// Predicate to filter nodes for which to run an operation
#[derive(Debug, PartialEq, Eq)]
pub enum HasPredicate {
    /// Enum variant for a predicate relating to a node
    NodePredicate {
        /// If true, the node should not be present for the predicate to be satisfied
        negated: bool,
        /// Type of the node, eg: `PART`
        node_type: String,
        /// Optional name of the node e.g: `[part_name]`
        name: Option<String>,
        /// Optional HAS-block to further match on content of node
        has_block: Option<Ranged<HasBlock>>,
    },
    /// Enum variant for a predicate relating to a variable
    KeyPredicate {
        /// If true, the variable should not be present for the predicate to be satisfied
        negated: bool,
        /// Variable name to check for
        key: String,
        /// Optional value of the variable to check for
        value: Option<Ranged<String>>,
        /// Match type, `<`, ` `, `>`
        match_type: MatchType,
    },
}

/// Contains all the predicates to be combined using logical ANDs. All predicates have to be satisfied for the node to be a match
#[derive(Debug, PartialEq, Eq)]
pub struct HasBlock {
    /// The predicates that are combined with logical ANDs
    pub predicates: Vec<Ranged<HasPredicate>>,
}

/// A [`HasPredicate`] with its texts as character sequences, and its HAS block as the
/// sequence of its predicates
pub enum SpecHasPredicate {
    /// A predicate on a node
    Node {
        /// The node must be absent
        negated: bool,
        /// Type of the node
        node_type: Seq<char>,
        /// Optional name of the node
        name: Option<Seq<char>>,
        /// Optional HAS block on the node's content
        has_block: Option<Ranged<Seq<Ranged<SpecHasPredicate>>>>,
    },
    /// A predicate on a key
    Key {
        /// The key must be absent
        negated: bool,
        /// The key
        key: Seq<char>,
        /// Optional value
        value: Option<Ranged<Seq<char>>>,
        /// How the value is compared
        match_type: MatchType,
    },
}

/// The view of a predicate
pub open spec fn has_predicate_view(p: HasPredicate) -> SpecHasPredicate
    decreases p,
{
    match p {
        HasPredicate::NodePredicate { negated, node_type, name, has_block } => SpecHasPredicate::Node {
            negated,
            node_type: node_type@,
            name: match name {
                Some(n) => Some(n@),
                None => None,
            },
            has_block: match has_block {
                Some(b) => Some(Ranged { inner: has_predicates_view(b.inner.predicates@), range: b.range }),
                None => None,
            },
        },
        HasPredicate::KeyPredicate { negated, key, value, match_type } => SpecHasPredicate::Key {
            negated,
            key: key@,
            value: match value {
                Some(v) => Some(Ranged { inner: v.inner@, range: v.range }),
                None => None,
            },
            match_type,
        },
    }
}

/// The views of a sequence of predicates
pub open spec fn has_predicates_view(v: Seq<Ranged<HasPredicate>>) -> Seq<Ranged<SpecHasPredicate>>
    decreases v,
{
    if v.len() == 0 {
        seq![]
    } else {
        has_predicates_view(v.drop_last()).push(
            Ranged { inner: has_predicate_view(v.last().inner), range: v.last().range },
        )
    }
}

impl View for HasPredicate {
    type V = SpecHasPredicate;

    open spec fn view(&self) -> SpecHasPredicate {
        has_predicate_view(*self)
    }
}

impl View for HasBlock {
    type V = Seq<Ranged<SpecHasPredicate>>;

    open spec fn view(&self) -> Seq<Ranged<SpecHasPredicate>> {
        has_predicates_view(self.predicates@)
    }
}

/// The views of the predicates are the predicates' views, one by one
pub proof fn lemma_has_predicates_view(v: Seq<Ranged<HasPredicate>>)
    ensures
        has_predicates_view(v) == v.map_values(|x: Ranged<HasPredicate>| x@),
    decreases v.len(),
{
    if v.len() > 0 {
        lemma_has_predicates_view(v.drop_last());
        assert(v.map_values(|x: Ranged<HasPredicate>| x@) =~= v.drop_last().map_values(
            |x: Ranged<HasPredicate>| x@,
        ).push(v.last()@));
    } else {
        assert(v.map_values(|x: Ranged<HasPredicate>| x@) =~= Seq::<Ranged<SpecHasPredicate>>::empty());
    }
}

/// How a match type is written
pub open spec fn match_type_text(m: MatchType) -> Seq<char> {
    match m {
        MatchType::Literal => seq![],
        MatchType::GreaterThan => seq!['>'],
        MatchType::LessThan => seq!['<'],
    }
}

/// How a predicate is written
pub open spec fn has_predicate_text(p: SpecHasPredicate) -> Seq<char>
    decreases p,
{
    match p {
        SpecHasPredicate::Node { negated, node_type, name, has_block } => (if negated {
            seq!['!']
        } else {
            seq!['@']
        }) + node_type + (match name {
            Some(n) => seq!['['] + n + seq![']'],
            None => seq![],
        }) + (match has_block {
            Some(b) => if b.inner.len() == 0 {
                seq![]
            } else {
                ":HAS["@ + has_predicates_text(b.inner) + seq![']']
            },
            None => seq![],
        }),
        SpecHasPredicate::Key { negated, key, value, match_type } => (if negated {
            seq!['~']
        } else {
            seq!['#']
        }) + key + (match value {
            Some(v) => seq!['['] + match_type_text(match_type) + v.inner + seq![']'],
            None => seq![],
        }),
    }
}

/// Predicates written one after the other, separated by `,`
pub open spec fn has_predicates_text(q: Seq<Ranged<SpecHasPredicate>>) -> Seq<char>
    decreases q,
{
    if q.len() == 0 {
        seq![]
    } else if q.len() == 1 {
        has_predicate_text(q[0].inner)
    } else {
        has_predicates_text(q.drop_last()) + seq![','] + has_predicate_text(q.last().inner)
    }
}

/// How a HAS block is written; one without predicates is not written at all
pub open spec fn has_block_text(q: Seq<Ranged<SpecHasPredicate>>) -> Seq<char> {
    if q.len() == 0 {
        seq![]
    } else {
        ":HAS["@ + has_predicates_text(q) + seq![']']
    }
}

/// A character of the name of a node in a HAS predicate
pub open spec fn is_has_name_char(c: char) -> bool {
    unicode_alphanumeric(c) || c == '/' || c == '_' || c == '-' || c == '?' || c == '*' || c == '.'
        || c == '|'
}

/// Where a value in a HAS predicate stops: a line ending, `]` or `//`
pub open spec fn value_stop_at(s: Seq<char>, v: int, e: int) -> bool {
    line_ending(s, v, e) is Some || (0 <= v < e && s[v] == ']') || tag_at(s, v, e, seq!['/', '/'])
}

/// The first offset at or after `v` where a value stops, if there is one before `e`
pub open spec fn value_end(s: Seq<char>, v: int, e: int) -> Option<int>
    decreases e - v,
{
    if value_stop_at(s, v, e) {
        Some(v)
    } else if v < e {
        value_end(s, v + 1, e)
    } else {
        None
    }
}

/// Where a value stops, when it does, lies between its start and the end of the text
pub proof fn lemma_value_end(s: Seq<char>, v: int, e: int)
    requires
        v <= e,
    ensures
        value_end(s, v, e) matches Some(j) ==> v <= j <= e,
    decreases e - v,
{
    if !value_stop_at(s, v, e) && v < e {
        lemma_value_end(s, v + 1, e);
    }
}

/// One of two marks expected at `i`: `yes` gives `false`, `no` gives `true`; when neither is
/// there, the error is reported and parsing goes on at `i`
pub open spec fn sp_mark(s: Seq<char>, i: int, e: int, yes: char, no: char, msg: Seq<char>) -> (Option<bool>, int, Seq<SpecError>) {
    if i < e && s[i] == yes {
        (Some(false), i + 1, seq![])
    } else if i < e && s[i] == no {
        (Some(true), i + 1, seq![])
    } else {
        (None, i, seq![expect_error(s, i, e, msg)])
    }
}

/// The optional name of a node predicate at `k`: `[`, name characters, `]` (reported when missing)
pub open spec fn sp_has_name(s: Seq<char>, k: int, e: int) -> (Option<Seq<char>>, int, Seq<SpecError>) {
    if k < e && s[k] == '[' {
        let m = run_of(s, k + 1, e, |c: char| is_has_name_char(c));
        if m > k + 1 {
            let (end, errs) = sp_close_bracket(s, m, e);
            (Some(s.subrange(k + 1, m)), end, errs)
        } else {
            (None, k, seq![])
        }
    } else {
        (None, k, seq![])
    }
}

/// The optional value of a key predicate at `k`: `[`, the text up to a line ending, `]` or `//`
/// (empty when the end of the text comes first), and `]` (reported when missing)
pub open spec fn sp_has_value(s: Seq<char>, k: int, e: int) -> (Option<Ranged<Seq<char>>>, int, Seq<SpecError>) {
    if k < e && s[k] == '[' {
        let p = match value_end(s, k + 1, e) {
            Some(v) => v,
            None => k + 1,
        };
        let (end, errs) = sp_close_bracket(s, p, e);
        (Some(Ranged { inner: s.subrange(k + 1, p), range: wrap_range(s, k, end) }), end, errs)
    } else {
        (None, k, seq![])
    }
}

/// The value of a key predicate and how it is compared: a leading `<` or `>` selects
/// `LessThan` or `GreaterThan` and is taken off the value; any other value is matched literally
pub open spec fn split_match_type(v: Seq<char>) -> (Seq<char>, MatchType) {
    if v.len() > 0 && v[0] == '<' {
        (v.subrange(1, v.len() as int), MatchType::LessThan)
    } else if v.len() > 0 && v[0] == '>' {
        (v.subrange(1, v.len() as int), MatchType::GreaterThan)
    } else {
        (v, MatchType::Literal)
    }
}

/// The value of a key predicate with its comparison taken off, and the comparison
pub open spec fn key_value_parts(value: Option<Ranged<Seq<char>>>) -> (Option<Ranged<Seq<char>>>, MatchType) {
    match value {
        Some(v) => (Some(Ranged { inner: split_match_type(v.inner).0, range: v.range }), split_match_type(v.inner).1),
        None => (None, MatchType::Literal),
    }
}

/// A HAS predicate at offset `i`. A node predicate (`@` or `!`, a node type, an optional name and
/// HAS block) is tried first; a missing mark is reported. When no node type follows, a key
/// predicate (`#` or `~`, a key, an optional value) is tried.
pub open spec fn sp_has_predicate(s: Seq<char>, i: int, e: int) -> SParsed<Ranged<SpecHasPredicate>>
    decreases e - i,
{
    let (neg, a, errs1) = sp_mark(s, i, e, '@', '!', "Expected @ or !"@);
    let k = run_of(s, a, e, |c: char| is_id_char(c));
    if k > a {
        let (name, n, errs2) = sp_has_name(s, k, e);
        let (has_block, end, errs3) = if i < n <= e {
            match sp_has_block(s, n, e) {
                SParsed::Done(q, b, errs) => (Some(b), q, errs),
                _ => (None, n, seq![]),
            }
        } else {
            (None, n, seq![])
        };
        SParsed::Done(
            end,
            Ranged {
                inner: SpecHasPredicate::Node {
                    negated: neg == Some(true),
                    node_type: s.subrange(a, k),
                    name,
                    has_block,
                },
                range: wrap_range(s, i, end),
            },
            errs1 + errs2 + errs3,
        )
    } else {
        let (neg, a, errs1) = sp_mark(s, i, e, '#', '~', "Expected # or ~"@);
        let k = run_of(s, a, e, |c: char| is_id_char(c));
        if k > a {
            let (raw, end, errs2) = sp_has_value(s, k, e);
            let (value, match_type) = key_value_parts(raw);
            SParsed::Done(
                end,
                Ranged {
                    inner: SpecHasPredicate::Key {
                        negated: neg == Some(true),
                        key: s.subrange(a, k),
                        value,
                        match_type,
                    },
                    range: wrap_range(s, i, end),
                },
                errs1 + errs2,
            )
        } else {
            SParsed::Failed(a)
        }
    }
}

/// The predicates that follow `&` or `,` separators from `p` on; a separator not followed by a
/// predicate is left unread
pub open spec fn sp_has_preds_rest(s: Seq<char>, p: int, e: int) -> (Seq<Ranged<SpecHasPredicate>>, int, Seq<SpecError>)
    decreases e - p,
{
    if 0 <= p < e && (s[p] == '&' || s[p] == ',') {
        match sp_has_predicate(s, p + 1, e) {
            SParsed::Done(q, pr, errs) => if p + 1 < q <= e {
                let (rest, end, errs2) = sp_has_preds_rest(s, q, e);
                (seq![pr] + rest, end, errs + errs2)
            } else {
                (seq![], p, seq![])
            },
            _ => (seq![], p, seq![]),
        }
    } else {
        (seq![], p, seq![])
    }
}

/// A HAS block at offset `i`: `:HAS[` (any case), predicates separated by `&` or `,` (reported
/// when there is none), and `]` (reported when missing)
pub open spec fn sp_has_block(s: Seq<char>, i: int, e: int) -> SParsed<Ranged<Seq<Ranged<SpecHasPredicate>>>>
    decreases e - i,
{
    if !tag_no_case_at(s, i, e, ":HAS["@) {
        SParsed::Failed(i)
    } else {
        let j = i + 5;
        let (preds, p, errs1) = if i < j <= e {
            match sp_has_predicate(s, j, e) {
                SParsed::Done(q, pr, errs) => if j < q <= e {
                    let (rest, p, errs2) = sp_has_preds_rest(s, q, e);
                    (seq![pr] + rest, p, errs + errs2)
                } else {
                    (seq![], j, seq![])
                },
                SParsed::Failed(f) => (seq![], f, seq![expect_error(s, f, e, "Expected has predicate"@)]),
                SParsed::Panicked => (seq![], j, seq![]),
            }
        } else {
            (seq![], j, seq![])
        };
        let (end, errs3) = sp_close_bracket(s, p, e);
        SParsed::Done(end, Ranged { inner: preds, range: wrap_range(s, i, end) }, errs1 + errs3)
    }
}

impl Src {
    /// End of the run of HAS-name characters at `i`
    pub fn has_name_run(&self, i: usize, e: usize) -> (r: usize)
        requires
            i <= e <= self@.len(),
        ensures
            r == run_of(self@, i as int, e as int, |c: char| is_has_name_char(c)),
            i <= r <= e,
    {
        let mut k = i;
        while k < e && is_has_name_char_exec(self.at(k))
            invariant
                i <= k <= e <= self@.len(),
                run_of(self@, i as int, e as int, |c: char| is_has_name_char(c)) == run_of(
                    self@,
                    k as int,
                    e as int,
                    |c: char| is_has_name_char(c),
                ),
            decreases e - k,
        {
            k = k + 1;
        }
        proof {
            lemma_run_of(self@, i as int, e as int, |c: char| is_has_name_char(c));
        }
        k
    }

    /// Whether a value stops at `v`
    pub fn value_stop_at(&self, v: usize, e: usize) -> (r: bool)
        requires
            v <= e <= self@.len(),
        ensures
            r == value_stop_at(self@, v as int, e as int),
    {
        let le = self.line_ending(v, e);
        let slash = v < e && v + 1 < e && self.at(v) == '/' && self.at(v + 1) == '/';
        proof {
            if tag_at(self@, v as int, e as int, seq!['/', '/']) {
                assert(self@.subrange(v as int, v + 2)[0] == self@[v as int]);
                assert(self@.subrange(v as int, v + 2)[1] == self@[v + 1]);
            }
            if slash {
                assert(self@.subrange(v as int, v + 2) =~= seq!['/', '/']);
            }
        }
        le.is_some() || (v < e && self.at(v) == ']') || slash
    }

    /// The first offset at or after `v` where a value stops
    pub fn value_end(&self, v: usize, e: usize) -> (r: Option<usize>)
        requires
            v <= e <= self@.len(),
        ensures
            r == (match value_end(self@, v as int, e as int) {
                Some(j) => Some(j as usize),
                None => None::<usize>,
            }),
            r matches Some(j) ==> v <= j <= e,
    {
        let mut k = v;
        loop
            invariant
                v <= k <= e <= self@.len(),
                value_end(self@, v as int, e as int) == value_end(self@, k as int, e as int),
            decreases e - k,
        {
            if self.value_stop_at(k, e) {
                return Some(k);
            }
            if k < e {
                k = k + 1;
            } else {
                return None;
            }
        }
    }
}

/// A character of a HAS node name
pub fn is_has_name_char_exec(c: char) -> (r: bool)
    ensures
        r == is_has_name_char(c),
{
    is_alphanumeric(c) || c == '/' || c == '_' || c == '-' || c == '?' || c == '*' || c == '.' || c == '|'
}

fn parse_mark(src: &Src, i: usize, e: usize, yes: char, no: char, msg: &str) -> (r: (Option<bool>, usize, Vec<Error>))
    requires
        src.wf(),
        i <= e <= src@.len(),
    ensures
        (r.0, r.1 as int, errors_view(r.2@)) == sp_mark(src@, i as int, e as int, yes, no, msg@),
        i <= r.1 <= e,
{
    if i < e && src.at(i) == yes {
        (Some(false), i + 1, no_errors())
    } else if i < e && src.at(i) == no {
        (Some(true), i + 1, no_errors())
    } else {
        (None, i, one_error(src.expect_error(i, e, msg)))
    }
}

fn parse_has_name(src: &Src, k: usize, e: usize) -> (r: (Option<String>, usize, Vec<Error>))
    requires
        src.wf(),
        k <= e <= src@.len(),
    ensures
        (match r.0 {
            Some(n) => Some(n@),
            None => None,
        }, r.1 as int, errors_view(r.2@)) == sp_has_name(src@, k as int, e as int),
        k <= r.1 <= e,
{
    if k < e && src.at(k) == '[' {
        let m = src.has_name_run(k + 1, e);
        if m > k + 1 {
            let (end, errs) = src.close_bracket(m, e);
            (Some(src.text(k + 1, m)), end, errs)
        } else {
            (None, k, no_errors())
        }
    } else {
        (None, k, no_errors())
    }
}

fn parse_has_value(src: &Src, k: usize, e: usize) -> (r: (Option<Ranged<String>>, usize, Vec<Error>))
    requires
        src.wf(),
        k <= e <= src@.len(),
    ensures
        (match r.0 {
            Some(v) => Some(Ranged { inner: v.inner@, range: v.range }),
            None => None,
        }, r.1 as int, errors_view(r.2@)) == sp_has_value(src@, k as int, e as int),
        k <= r.1 <= e,
{
    if k < e && src.at(k) == '[' {
        proof {
            lemma_value_end(src@, k + 1, e as int);
        }
        let p = match src.value_end(k + 1, e) {
            Some(v) => v,
            None => k + 1,
        };
        let (end, errs) = src.close_bracket(p, e);
        (Some(Ranged { inner: src.text(k + 1, p), range: src.wrap(k, end) }), end, errs)
    } else {
        (None, k, no_errors())
    }
}

/// Takes a leading `<` or `>` off the value of a key predicate, as the comparison to make
fn split_key_value(value: Option<Ranged<String>>) -> (r: (Option<Ranged<String>>, MatchType))
    ensures
        ((match r.0 {
            Some(v) => Some(Ranged { inner: v.inner@, range: v.range }),
            None => None,
        }), r.1) == key_value_parts(match value {
            Some(v) => Some(Ranged { inner: v.inner@, range: v.range }),
            None => None,
        }),
{
    match value {
        Some(v) => {
            let t = v.inner.as_str();
            let n = t.unicode_len();
            if n > 0 && t.get_char(0) == '<' {
                let rest = String::from_str(t.substring_char(1, n));
                (Some(Ranged { inner: rest, range: v.range }), MatchType::LessThan)
            } else if n > 0 && t.get_char(0) == '>' {
                let rest = String::from_str(t.substring_char(1, n));
                (Some(Ranged { inner: rest, range: v.range }), MatchType::GreaterThan)
            } else {
                (Some(v), MatchType::Literal)
            }
        },
        None => (None, MatchType::Literal),
    }
}

impl HasPredicate {
    /// Parses a HAS predicate at offset `i`
    pub fn parse(src: &Src, i: usize, e: usize) -> (r: Parsed<Ranged<HasPredicate>>)
        requires
            src.wf(),
            i <= e <= src@.len(),
        ensures
            r@ == sp_has_predicate(src@, i as int, e as int),
            r matches Parsed::Done(q, _, _) ==> i < q <= e,
            !(r is Panicked),
        decreases e - i,
    {
        let (neg, a, errs1) = parse_mark(src, i, e, '@', '!', "Expected @ or !");
        let k = src.id_run(a, e);
        if k > a {
            let (name, n, errs2) = parse_has_name(src, k, e);
            let (has_block, end, errs3): (Option<Ranged<HasBlock>>, usize, Vec<Error>) = if i < n && n <= e {
                match HasBlock::parse(src, n, e) {
                    Parsed::Done(q, b, errs) => (Some(b), q, errs),
                    _ => (None, n, no_errors()),
                }
            } else {
                (None, n, no_errors())
            };
            let node_type = src.text(a, k);
            let errs = join_errors(join_errors(errs1, errs2), errs3);
            let negated = match neg {
                Some(b) => b,
                None => false,
            };
            Parsed::Done(
                end,
                Ranged {
                    inner: HasPredicate::NodePredicate { negated, node_type, name, has_block },
                    range: src.wrap(i, end),
                },
                errs,
            )
        } else {
            let (neg, a, errs1) = parse_mark(src, i, e, '#', '~', "Expected # or ~");
            let k = src.id_run(a, e);
            if k > a {
                let (raw, end, errs2) = parse_has_value(src, k, e);
                let (value, match_type) = split_key_value(raw);
                let key = src.text(a, k);
                let errs = join_errors(errs1, errs2);
                let negated = match neg {
                    Some(b) => b,
                    None => false,
                };
                Parsed::Done(
                    end,
                    Ranged {
                        inner: HasPredicate::KeyPredicate { negated, key, value, match_type },
                        range: src.wrap(i, end),
                    },
                    errs,
                )
            } else {
                Parsed::Failed(a)
            }
        }
    }
}

impl HasBlock {
    /// Parses a HAS block at offset `i`
    pub fn parse(src: &Src, i: usize, e: usize) -> (r: Parsed<Ranged<HasBlock>>)
        requires
            src.wf(),
            i <= e <= src@.len(),
        ensures
            r@ == sp_has_block(src@, i as int, e as int),
            r matches Parsed::Done(q, _, _) ==> i < q <= e,
            !(r is Panicked),
        decreases e - i,
    {
        if !src.tag_no_case(i, e, ":HAS[") {
            return Parsed::Failed(i);
        }
        proof {
            reveal_strlit(":HAS[");
        }
        let j = i + ":HAS[".unicode_len();
        let mut preds: Vec<Ranged<HasPredicate>> = Vec::new();
        let mut errs = no_errors();
        let mut p = j;
        match HasPredicate::parse(src, j, e) {
            Parsed::Done(q, pr, errs0) => {
                let ghost pv = pr@;
                preds.push(pr);
                errs = errs0;
                p = q;
                proof {
                    assert(preds@.map_values(|x: Ranged<HasPredicate>| x@) =~= seq![pv]);
                }
            },
            Parsed::Failed(f) => {
                p = f;
                errs = one_error(src.expect_error(f, e, "Expected has predicate"));
            },
            Parsed::Panicked => {},
        }
        proof {
            lemma_has_predicates_view(preds@);
        }
        if preds.len() > 0 {
            loop
                invariant
                    src.wf(),
                    j == i + 5,
                    j < p <= e <= src@.len(),
                    preds@.len() > 0,
                    sp_has_block(src@, i as int, e as int) == ({
                        let rest = sp_has_preds_rest(src@, p as int, e as int);
                        let (end, errs3) = sp_close_bracket(src@, rest.1, e as int);
                        SParsed::Done(
                            end,
                            Ranged {
                                inner: preds@.map_values(|x: Ranged<HasPredicate>| x@) + rest.0,
                                range: wrap_range(src@, i as int, end),
                            },
                            errors_view(errs@) + rest.2 + errs3,
                        )
                    }),
                ensures
                    j < p <= e,
                    sp_has_preds_rest(src@, p as int, e as int).1 == p as int,
                    sp_has_block(src@, i as int, e as int) == ({
                        let (end, errs3) = sp_close_bracket(src@, p as int, e as int);
                        SParsed::Done(
                            end,
                            Ranged {
                                inner: preds@.map_values(|x: Ranged<HasPredicate>| x@),
                                range: wrap_range(src@, i as int, end),
                            },
                            errors_view(errs@) + errs3,
                        )
                    }),
                decreases e - p,
            {
                let ghost old_preds = preds@;
                let ghost old_errs = errs@;
                if p < e && (src.at(p) == '&' || src.at(p) == ',') {
                    match HasPredicate::parse(src, p + 1, e) {
                        Parsed::Done(q, pr, errs1) => {
                            let ghost pv = pr@;
                            preds.push(pr);
                            errs = join_errors(errs, errs1);
                            proof {
                                let rest = sp_has_preds_rest(src@, q as int, e as int);
                                assert(preds@.map_values(|x: Ranged<HasPredicate>| x@) =~= old_preds.map_values(
                                    |x: Ranged<HasPredicate>| x@,
                                ).push(pv));
                                assert(old_preds.map_values(|x: Ranged<HasPredicate>| x@) + (seq![pv] + rest.0)
                                    =~= preds@.map_values(|x: Ranged<HasPredicate>| x@) + rest.0);
                                let (end, errs3) = sp_close_bracket(src@, rest.1, e as int);
                                assert(errors_view(old_errs) + (errors_view(errs1@) + rest.2) + errs3
                                    =~= errors_view(errs@) + rest.2 + errs3);
                            }
                            p = q;
                        },
                        _ => {
                            proof {
                                assert(preds@.map_values(|x: Ranged<HasPredicate>| x@) + seq![]
                                    =~= preds@.map_values(|x: Ranged<HasPredicate>| x@));
                                assert(errors_view(errs@) + seq![] =~= errors_view(errs@));
                            }
                            break ;
                        },
                    }
                } else {
                    proof {
                        assert(preds@.map_values(|x: Ranged<HasPredicate>| x@) + seq![]
                            =~= preds@.map_values(|x: Ranged<HasPredicate>| x@));
                        assert(errors_view(errs@) + seq![] =~= errors_view(errs@));
                    }
                    break ;
                }
            }
        } else {
            proof {
                assert(preds@.map_values(|x: Ranged<HasPredicate>| x@) =~= Seq::<Ranged<SpecHasPredicate>>::empty());
            }
        }
        let (end, errs3) = src.close_bracket(p, e);
        let ghost ev = errors_view(errs@);
        let errs = join_errors(errs, errs3);
        let block = HasBlock { predicates: preds };
        proof {
            lemma_has_predicates_view(block.predicates@);
        }
        Parsed::Done(end, Ranged { inner: block, range: src.wrap(i, end) }, errs)
    }
}

impl MatchType {
    /// How the match type is written
    pub fn to_string(&self) -> (r: String)
        ensures
            r@ == match_type_text(*self),
    {
        let mut r = String::new();
        match self {
            MatchType::Literal => {},
            MatchType::GreaterThan => push_char(&mut r, '>'),
            MatchType::LessThan => push_char(&mut r, '<'),
        }
        assert(r@ =~= match_type_text(*self));
        r
    }
}

impl HasPredicate {
    /// How the predicate is written
    pub fn to_string(&self) -> (r: String)
        ensures
            r@ == has_predicate_text(self@),
        decreases self,
    {
        let mut r = String::new();
        match self {
            HasPredicate::NodePredicate { negated, node_type, name, has_block } => {
                push_char(&mut r, if *negated { '!' } else { '@' });
                r.append(node_type.as_str());
                match name {
                    Some(n) => {
                        push_char(&mut r, '[');
                        r.append(n.as_str());
                        push_char(&mut r, ']');
                    },
                    None => {},
                }
                match has_block {
                    Some(b) => {
                        let t = b.inner.to_string();
                        r.append(t.as_str());
                    },
                    None => {},
                }
            },
            HasPredicate::KeyPredicate { negated, key, value, match_type } => {
                push_char(&mut r, if *negated { '~' } else { '#' });
                r.append(key.as_str());
                match value {
                    Some(v) => {
                        push_char(&mut r, '[');
                        let m = match_type.to_string();
                        r.append(m.as_str());
                        r.append(v.inner.as_str());
                        push_char(&mut r, ']');
                    },
                    None => {},
                }
            },
        }
        assert(r@ =~= has_predicate_text(self@));
        r
    }
}

impl HasBlock {
    /// How the HAS block is written; one without predicates gives an empty text
    pub fn to_string(&self) -> (r: String)
        ensures
            r@ == has_block_text(self@),
        decreases self,
    {
        proof {
            lemma_has_predicates_view(self.predicates@);
        }
        if self.predicates.len() == 0 {
            return String::new();
        }
        let mut body = String::new();
        let mut k: usize = 0;
        while k < self.predicates.len()
            invariant
                k <= self.predicates@.len(),
                self@ == self.predicates@.map_values(|x: Ranged<HasPredicate>| x@),
                body@ == has_predicates_text(self@.take(k as int)),
            decreases self.predicates.len() - k,
        {
            if k > 0 {
                push_char(&mut body, ',');
            }
            let t = self.predicates[k].inner.to_string();
            body.append(t.as_str());
            assert(self@.take(k + 1).drop_last() == self@.take(k as int));
            k = k + 1;
        }
        assert(self@.take(self@.len() as int) == self@);
        let mut r = String::from_str(":HAS[");
        r.append(body.as_str());
        push_char(&mut r, ']');
        r
    }
}

} // verus!
