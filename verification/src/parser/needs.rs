//! NEEDS blocks: the mods a patch needs, or must not find.
use vstd::prelude::*;
use vstd::string::*;
use super::error::{Error, SpecError, errors_view, join_errors, no_errors, one_error};
use super::input::{Parsed, SParsed, Src, expect_error, wrap_range};
use super::indices::sp_close_bracket;
use super::lex::{is_mod_char, run_of, tag_no_case_at, lemma_run_of};
use super::range::Ranged;
use crate::text::push_char;

verus! {

/// A mod that is needed (or not) for the clause to be satisfied
#[derive(Debug, Clone, PartialEq, Eq)]
pub struct ModClause {
    /// If true, the mod should not be present for the clause to be satisfied
    pub negated: bool,
    /// Name of the mod to check for
    pub name: String,
}

/// A [`ModClause`] with its name as a character sequence
pub struct SpecModClause {
    /// The mod must be absent
    pub negated: bool,
    /// Name of the mod
    pub name: Seq<char>,
}

impl View for ModClause {
    type V = SpecModClause;

    open spec fn view(&self) -> SpecModClause {
        SpecModClause { negated: self.negated, name: self.name@ }
    }
}

/// Contains all the clauses to be combined using logical ORs. If any of those clauses are satisfied, the clause is satisfied.
#[derive(Debug, Clone, PartialEq, Eq)]
pub struct OrClause {
    /// The clauses to be combined using logical ORs
    pub mod_clauses: Vec<Ranged<ModClause>>,
}

impl View for OrClause {
    type V = Seq<Ranged<SpecModClause>>;

    open spec fn view(&self) -> Seq<Ranged<SpecModClause>> {
        self.mod_clauses@.map_values(|m: Ranged<ModClause>| m@)
    }
}

/// Contains all the clauses to be combined using logical ANDs. All clauses have to be satisfied for the parent operation to be executed
#[derive(Debug, Clone, PartialEq, Eq)]
pub struct NeedsBlock {
    /// The clauses to be combined using logical ANDs
    pub or_clauses: Vec<Ranged<OrClause>>,
}

impl View for NeedsBlock {
    type V = Seq<Ranged<Seq<Ranged<SpecModClause>>>>;

    open spec fn view(&self) -> Seq<Ranged<Seq<Ranged<SpecModClause>>>> {
        self.or_clauses@.map_values(|o: Ranged<OrClause>| o@)
    }
}

/// How a mod clause is written
pub open spec fn mod_clause_text(m: SpecModClause) -> Seq<char> {
    if m.negated { seq!['!'] + m.name } else { m.name }
}

/// How an OR clause is written: its mods, separated by `|`
pub open spec fn or_clause_text(o: Seq<Ranged<SpecModClause>>) -> Seq<char>
    decreases o.len(),
{
    if o.len() == 0 {
        seq![]
    } else if o.len() == 1 {
        mod_clause_text(o[0].inner)
    } else {
        or_clause_text(o.drop_last()) + seq!['|'] + mod_clause_text(o.last().inner)
    }
}

/// The OR clauses of a NEEDS block, separated by `,`
pub open spec fn or_clauses_text(n: Seq<Ranged<Seq<Ranged<SpecModClause>>>>) -> Seq<char>
    decreases n.len(),
{
    if n.len() == 0 {
        seq![]
    } else if n.len() == 1 {
        or_clause_text(n[0].inner)
    } else {
        or_clauses_text(n.drop_last()) + seq![','] + or_clause_text(n.last().inner)
    }
}

/// How a NEEDS block is written
pub open spec fn needs_text(n: Seq<Ranged<Seq<Ranged<SpecModClause>>>>) -> Seq<char> {
    ":NEEDS["@ + or_clauses_text(n) + "]"@
}

/// A mod clause at offset `i`: an optional `!` and a mod name
pub open spec fn sp_mod_clause(s: Seq<char>, i: int, e: int) -> SParsed<Ranged<SpecModClause>> {
    let n = if i < e && s[i] == '!' { i + 1 } else { i };
    let k = run_of(s, n, e, |c: char| is_mod_char(c));
    if k == n {
        SParsed::Failed(n)
    } else {
        SParsed::Done(
            k,
            Ranged { inner: SpecModClause { negated: n > i, name: s.subrange(n, k) }, range: wrap_range(s, i, k) },
            seq![],
        )
    }
}

/// A mod clause that is expected at `p`: when it is missing, the error is reported and parsing
/// goes on from where the clause failed
pub open spec fn sp_expect_mod(s: Seq<char>, p: int, e: int) -> (Option<Ranged<SpecModClause>>, int, Seq<SpecError>) {
    match sp_mod_clause(s, p, e) {
        SParsed::Done(k, m, _) => (Some(m), k, seq![]),
        SParsed::Failed(f) => (None, f, seq![expect_error(s, f, e, "Expected mod"@)]),
        SParsed::Panicked => (None, p, seq![]),
    }
}

/// A mod ends within the text, after its start when it is read or starts with `!`
pub proof fn lemma_expect_mod(s: Seq<char>, p: int, e: int)
    requires
        0 <= p <= e,
    ensures
        p <= sp_expect_mod(s, p, e).1 <= e,
        p < e && s[p] == '!' ==> p < sp_expect_mod(s, p, e).1,
        sp_expect_mod(s, p, e).0 is Some ==> p < sp_expect_mod(s, p, e).1,
{
    let n = if p < e && s[p] == '!' { p + 1 } else { p };
    lemma_run_of(s, n, e, |c: char| is_mod_char(c));
}

/// The mods that follow `|` separators from `p` on
pub open spec fn sp_or_rest(s: Seq<char>, p: int, e: int) -> (Seq<Ranged<SpecModClause>>, int, Seq<SpecError>)
    decreases e - p,
{
    if 0 <= p < e && s[p] == '|' {
        let (m, q, errs) = sp_expect_mod(s, p + 1, e);
        proof {
            lemma_expect_mod(s, p + 1, e);
        }
        let (rest, end, errs2) = sp_or_rest(s, q, e);
        (match m {
            Some(m) => seq![m] + rest,
            None => rest,
        }, end, errs + errs2)
    } else {
        (seq![], p, seq![])
    }
}

/// An OR clause at offset `i`: mods separated by `|`. Missing mods are reported; the clause
/// itself never fails.
pub open spec fn sp_or_clause(s: Seq<char>, i: int, e: int) -> (Ranged<Seq<Ranged<SpecModClause>>>, int, Seq<SpecError>) {
    let (m, p, errs) = sp_expect_mod(s, i, e);
    let (rest, end, errs2) = sp_or_rest(s, p, e);
    (Ranged {
        inner: match m {
            Some(m) => seq![m] + rest,
            None => rest,
        },
        range: wrap_range(s, i, end),
    }, end, errs + errs2)
}

/// The rest of an OR clause ends between where it starts and the end of the text
pub proof fn lemma_or_rest(s: Seq<char>, p: int, e: int)
    requires
        0 <= p <= e,
    ensures
        p <= sp_or_rest(s, p, e).1 <= e,
    decreases e - p,
{
    if p < e && s[p] == '|' {
        lemma_expect_mod(s, p + 1, e);
        lemma_or_rest(s, sp_expect_mod(s, p + 1, e).1, e);
    }
}

/// An OR clause ends between where it starts and the end of the text
pub proof fn lemma_or_clause(s: Seq<char>, i: int, e: int)
    requires
        0 <= i <= e,
    ensures
        i <= sp_or_clause(s, i, e).1 <= e,
{
    lemma_expect_mod(s, i, e);
    lemma_or_rest(s, sp_expect_mod(s, i, e).1, e);
}

/// The OR clauses that follow `&` or `,` separators from `p` on
pub open spec fn sp_needs_rest(s: Seq<char>, p: int, e: int) -> (Seq<Ranged<Seq<Ranged<SpecModClause>>>>, int, Seq<SpecError>)
    decreases e - p,
{
    if 0 <= p < e && (s[p] == '&' || s[p] == ',') {
        let (o, q, errs) = sp_or_clause(s, p + 1, e);
        proof {
            lemma_or_clause(s, p + 1, e);
        }
        let (rest, end, errs2) = sp_needs_rest(s, q, e);
        (seq![o] + rest, end, errs + errs2)
    } else {
        (seq![], p, seq![])
    }
}

/// A NEEDS block at offset `i`: `:NEEDS[` (any case), OR clauses separated by `&` or `,`,
/// and `]` (reported when missing)
pub open spec fn sp_needs(s: Seq<char>, i: int, e: int) -> SParsed<Ranged<Seq<Ranged<Seq<Ranged<SpecModClause>>>>>> {
    if !tag_no_case_at(s, i, e, ":NEEDS["@) {
        SParsed::Failed(i)
    } else {
        let j = i + ":NEEDS["@.len();
        let (o, p, errs) = sp_or_clause(s, j, e);
        let (rest, q, errs2) = sp_needs_rest(s, p, e);
        let (end, errs3) = sp_close_bracket(s, q, e);
        SParsed::Done(end, Ranged { inner: seq![o] + rest, range: wrap_range(s, i, end) }, errs + errs2 + errs3)
    }
}

impl ModClause {
    /// Parses a mod clause at offset `i`
    pub fn parse(src: &Src, i: usize, e: usize) -> (r: Parsed<Ranged<ModClause>>)
        requires
            src.wf(),
            i <= e <= src@.len(),
        ensures
            r@ == sp_mod_clause(src@, i as int, e as int),
    {
        let n = if i < e && src.at(i) == '!' { i + 1 } else { i };
        let k = src.mod_run(n, e);
        if k == n {
            Parsed::Failed(n)
        } else {
            let name = src.text(n, k);
            Parsed::Done(k, Ranged { inner: ModClause { negated: n > i, name }, range: src.wrap(i, k) }, no_errors())
        }
    }

    /// How the mod clause is written
    pub fn to_string(&self) -> (r: String)
        ensures
            r@ == mod_clause_text(self@),
    {
        let mut r = String::new();
        if self.negated {
            push_char(&mut r, '!');
        }
        r.append(self.name.as_str());
        assert(r@ =~= mod_clause_text(self@));
        r
    }
}

fn expect_mod(src: &Src, p: usize, e: usize) -> (r: (Option<Ranged<ModClause>>, usize, Vec<Error>))
    requires
        src.wf(),
        p <= e <= src@.len(),
    ensures
        (match r.0 {
            Some(m) => Some(m@),
            None => None,
        }, r.1 as int, errors_view(r.2@)) == sp_expect_mod(src@, p as int, e as int),
{
    match ModClause::parse(src, p, e) {
        Parsed::Done(k, m, _) => (Some(m), k, no_errors()),
        Parsed::Failed(f) => (None, f, one_error(src.expect_error(f, e, "Expected mod"))),
        Parsed::Panicked => (None, p, no_errors()),
    }
}

impl OrClause {
    /// Parses an OR clause at offset `i`; it never fails
    pub fn parse(src: &Src, i: usize, e: usize) -> (r: (Ranged<OrClause>, usize, Vec<Error>))
        requires
            src.wf(),
            i <= e <= src@.len(),
        ensures
            (r.0@, r.1 as int, errors_view(r.2@)) == sp_or_clause(src@, i as int, e as int),
            i <= r.1 <= e,
    {
        proof {
            lemma_or_clause(src@, i as int, e as int);
            lemma_expect_mod(src@, i as int, e as int);
        }
        let (m, mut p, mut errs) = expect_mod(src, i, e);
        let mut mods: Vec<Ranged<ModClause>> = Vec::new();
        match m {
            Some(m) => mods.push(m),
            None => {},
        }
        let ghost first = mods@.map_values(|m: Ranged<ModClause>| m@);
        let ghost errs0 = errors_view(errs@);
        assert(first == match sp_expect_mod(src@, i as int, e as int).0 { Some(m) => seq![m], None => Seq::<Ranged<SpecModClause>>::empty() }) by {
            assert(first =~= match sp_expect_mod(src@, i as int, e as int).0 { Some(m) => seq![m], None => Seq::<Ranged<SpecModClause>>::empty() });
        }
        while p < e && src.at(p) == '|'
            invariant
                src.wf(),
                i <= p <= e <= src@.len(),
                sp_or_clause(src@, i as int, e as int) == ({
                    let rest = sp_or_rest(src@, p as int, e as int);
                    (Ranged { inner: mods@.map_values(|m: Ranged<ModClause>| m@) + rest.0, range: wrap_range(src@, i as int, rest.1) }, rest.1, errors_view(errs@) + rest.2)
                }),
            decreases e - p,
        {
            proof {
                lemma_expect_mod(src@, p + 1, e as int);
            }
            let ghost old_mods = mods@;
            let ghost old_errs = errs@;
            let (m, q, errs1) = expect_mod(src, p + 1, e);
            match m {
                Some(m) => {
                    mods.push(m);
                    assert(mods@.map_values(|m: Ranged<ModClause>| m@) =~= old_mods.map_values(|m: Ranged<ModClause>| m@) + seq![m@]);
                },
                None => {
                    assert(mods@ == old_mods);
                },
            }
            errs = join_errors(errs, errs1);
            proof {
                let rest = sp_or_rest(src@, q as int, e as int);
                assert((old_mods.map_values(|m: Ranged<ModClause>| m@) + (match sp_expect_mod(src@, p + 1, e as int).0 {
                    Some(m) => seq![m] + rest.0,
                    None => rest.0,
                })) =~= mods@.map_values(|m: Ranged<ModClause>| m@) + rest.0);
                assert(errors_view(old_errs) + (errors_view(errs1@) + rest.2) =~= errors_view(errs@) + rest.2);
            }
            p = q;
        }
        let ghost rest = sp_or_rest(src@, p as int, e as int);
        assert(rest.0 =~= Seq::<Ranged<SpecModClause>>::empty());
        assert(rest.2 =~= Seq::<SpecError>::empty());
        assert(mods@.map_values(|m: Ranged<ModClause>| m@) + rest.0 =~= mods@.map_values(|m: Ranged<ModClause>| m@));
        assert(errors_view(errs@) + rest.2 =~= errors_view(errs@));
        (Ranged { inner: OrClause { mod_clauses: mods }, range: src.wrap(i, p) }, p, errs)
    }
}

/// The rest of a NEEDS block ends between where it starts and the end of the text
pub proof fn lemma_needs_rest(s: Seq<char>, p: int, e: int)
    requires
        0 <= p <= e,
    ensures
        p <= sp_needs_rest(s, p, e).1 <= e,
    decreases e - p,
{
    if p < e && (s[p] == '&' || s[p] == ',') {
        lemma_or_clause(s, p + 1, e);
        lemma_needs_rest(s, sp_or_clause(s, p + 1, e).1, e);
    }
}

impl OrClause {
    /// How the OR clause is written
    pub fn to_string(&self) -> (r: String)
        ensures
            r@ == or_clause_text(self@),
    {
        let mut r = String::new();
        let mut k: usize = 0;
        while k < self.mod_clauses.len()
            invariant
                k <= self.mod_clauses@.len(),
                r@ == or_clause_text(self@.take(k as int)),
            decreases self.mod_clauses.len() - k,
        {
            if k > 0 {
                push_char(&mut r, '|');
            }
            let t = self.mod_clauses[k].inner.to_string();
            r.append(t.as_str());
            assert(self@.take(k + 1).drop_last() == self@.take(k as int));
            k = k + 1;
        }
        assert(self@.take(self@.len() as int) == self@);
        r
    }
}

impl NeedsBlock {
    /// How the NEEDS block is written
    pub fn to_string(&self) -> (r: String)
        ensures
            r@ == needs_text(self@),
    {
        let mut r = String::from_str(":NEEDS[");
        let mut k: usize = 0;
        while k < self.or_clauses.len()
            invariant
                k <= self.or_clauses@.len(),
                r@ == ":NEEDS["@ + or_clauses_text(self@.take(k as int)),
            decreases self.or_clauses.len() - k,
        {
            let ghost before = r@;
            if k > 0 {
                push_char(&mut r, ',');
            }
            let t = self.or_clauses[k].inner.to_string();
            r.append(t.as_str());
            assert(self@.take(k + 1).drop_last() == self@.take(k as int));
            proof {
                if k > 0 {
                    assert(r@ == ":NEEDS["@ + (or_clauses_text(self@.take(k as int)) + seq![','] + t@));
                } else {
                    assert(r@ == ":NEEDS["@ + t@);
                }
            }
            k = k + 1;
        }
        assert(self@.take(self@.len() as int) == self@);
        r.append("]");
        r
    }

    /// Parses a NEEDS block at offset `i`
    pub fn parse(src: &Src, i: usize, e: usize) -> (r: Parsed<Ranged<NeedsBlock>>)
        requires
            src.wf(),
            i <= e <= src@.len(),
        ensures
            r@ == sp_needs(src@, i as int, e as int),
            r matches Parsed::Done(q, _, _) ==> i < q <= e,
    {
        if !src.tag_no_case(i, e, ":NEEDS[") {
            return Parsed::Failed(i);
        }
        proof {
            reveal_strlit(":NEEDS[");
        }
        let j = i + ":NEEDS[".unicode_len();
        let (o, mut p, mut errs) = OrClause::parse(src, j, e);
        let mut ors: Vec<Ranged<OrClause>> = Vec::new();
        ors.push(o);
        proof {
            assert(ors@.map_values(|o: Ranged<OrClause>| o@) =~= seq![o@]);
        }
        while p < e && (src.at(p) == '&' || src.at(p) == ',')
            invariant
                src.wf(),
                i < j <= p <= e <= src@.len(),
                sp_needs(src@, i as int, e as int) == ({
                    let rest = sp_needs_rest(src@, p as int, e as int);
                    let (end, errs3) = sp_close_bracket(src@, rest.1, e as int);
                    SParsed::Done(end, Ranged { inner: ors@.map_values(|o: Ranged<OrClause>| o@) + rest.0, range: wrap_range(src@, i as int, end) }, errors_view(errs@) + rest.2 + errs3)
                }),
            decreases e - p,
        {
            proof {
                lemma_or_clause(src@, p + 1, e as int);
            }
            let ghost old_ors = ors@;
            let ghost old_errs = errs@;
            let (o, q, errs1) = OrClause::parse(src, p + 1, e);
            ors.push(o);
            errs = join_errors(errs, errs1);
            proof {
                let rest = sp_needs_rest(src@, q as int, e as int);
                assert(old_ors.map_values(|o: Ranged<OrClause>| o@) + (seq![o@] + rest.0) =~= ors@.map_values(|o: Ranged<OrClause>| o@) + rest.0);
                let (end, errs3) = sp_close_bracket(src@, rest.1, e as int);
                assert(errors_view(old_errs) + (errors_view(errs1@) + rest.2) + errs3 =~= errors_view(errs@) + rest.2 + errs3);
            }
            p = q;
        }
        let ghost rest = sp_needs_rest(src@, p as int, e as int);
        assert(rest.0 =~= Seq::<Ranged<Seq<Ranged<SpecModClause>>>>::empty());
        assert(rest.2 =~= Seq::<SpecError>::empty());
        let (end, errs3) = src.close_bracket(p, e);
        assert(ors@.map_values(|o: Ranged<OrClause>| o@) + rest.0 =~= ors@.map_values(|o: Ranged<OrClause>| o@));
        let ghost ev = errors_view(errs@);
        let errs = join_errors(errs, errs3);
        assert(ev + rest.2 + errors_view(errs3@) =~= errors_view(errs@));
        Parsed::Done(end, Ranged { inner: NeedsBlock { or_clauses: ors }, range: src.wrap(i, end) }, errs)
    }
}

} // verus!
