//! The pass a patch runs in.
use vstd::prelude::*;
use vstd::string::*;
use super::error::{Error, SpecError, errors_view, join_errors, no_errors, one_error};
use super::input::{Parsed, SParsed, Src, expect_error, wrap_range};
use super::indices::sp_close_bracket;
use super::lex::{ascii_lower, is_mod_char, lemma_run_of, run_of, tag_no_case_at};
use super::range::Ranged;

verus! {

/// Which pass a patch should run on
#[derive(Debug, Clone, PartialEq, Eq)]
pub enum Pass {
    /// Patches in First are run first. Ordering: (1)
    First,
    /// Default is run after First, before Before. Ordering: (2)
    Default,
    /// Before is run after Default, before For. Ordering: (3)
    Before(String),
    /// For is run after Before, before After. Ordering: (4)
    For(String),
    /// After is run after For, before Last. Ordering: (5)
    After(String),
    /// Last is run after After, before Final. Ordering: (6)
    Last(String),
    /// Final is run last. Ordering: (7)
    Final,
}

/// A [`Pass`], with its mod name as a character sequence
pub enum SpecPass {
    /// `:FIRST`
    First,
    /// No pass given
    Default,
    /// `:BEFORE[mod]`
    Before(Seq<char>),
    /// `:FOR[mod]`
    For(Seq<char>),
    /// `:AFTER[mod]`
    After(Seq<char>),
    /// `:LAST[mod]`
    Last(Seq<char>),
    /// `:FINAL`
    Final,
}

impl View for Pass {
    type V = SpecPass;

    open spec fn view(&self) -> SpecPass {
        match self {
            Pass::First => SpecPass::First,
            Pass::Default => SpecPass::Default,
            Pass::Before(m) => SpecPass::Before(m@),
            Pass::For(m) => SpecPass::For(m@),
            Pass::After(m) => SpecPass::After(m@),
            Pass::Last(m) => SpecPass::Last(m@),
            Pass::Final => SpecPass::Final,
        }
    }
}

impl Default for Pass {
    fn default() -> (r: Self)
        ensures
            r == Pass::Default,
    {
        Pass::Default
    }
}

/// How a pass is written
pub open spec fn pass_text(p: SpecPass) -> Seq<char> {
    match p {
        SpecPass::Default => seq![],
        SpecPass::First => ":FIRST"@,
        SpecPass::Before(m) => ":BEFORE["@ + m + "]"@,
        SpecPass::For(m) => ":FOR["@ + m + "]"@,
        SpecPass::After(m) => ":AFTER["@ + m + "]"@,
        SpecPass::Last(m) => ":LAST["@ + m + "]"@,
        SpecPass::Final => ":FINAL"@,
    }
}

/// Which of the named passes a keyword stands for
pub enum PassKind {
    /// `:BEFORE[`
    Before,
    /// `:FOR[`
    For,
    /// `:AFTER[`
    After,
    /// `:LAST[`
    Last,
}

/// The named pass of the kind, for a mod name
pub open spec fn named_pass(kind: PassKind, m: Seq<char>) -> SpecPass {
    match kind {
        PassKind::Before => SpecPass::Before(m),
        PassKind::For => SpecPass::For(m),
        PassKind::After => SpecPass::After(m),
        PassKind::Last => SpecPass::Last(m),
    }
}

/// A named pass whose keyword starts at `i` and ends at `j`: a mod name (reported when missing)
/// and `]` (reported when missing)
pub open spec fn sp_named_pass(s: Seq<char>, i: int, j: int, e: int, kind: PassKind) -> SParsed<Ranged<SpecPass>> {
    let k = run_of(s, j, e, |c: char| is_mod_char(c));
    let (name, p, errs1) = if k > j {
        (s.subrange(j, k), k, Seq::<SpecError>::empty())
    } else {
        (Seq::<char>::empty(), j, seq![expect_error(s, j, e, "Expected pass identifier"@)])
    };
    let (end, errs2) = sp_close_bracket(s, p, e);
    SParsed::Done(end, Ranged { inner: named_pass(kind, name), range: wrap_range(s, i, end) }, errs1 + errs2)
}

/// A pass at offset `i`; the keywords are matched ignoring the case of letters
pub open spec fn sp_pass(s: Seq<char>, i: int, e: int) -> SParsed<Ranged<SpecPass>> {
    if tag_no_case_at(s, i, e, ":FIRST"@) {
        let j = i + ":FIRST"@.len();
        SParsed::Done(j, Ranged { inner: SpecPass::First, range: wrap_range(s, i, j) }, seq![])
    } else if tag_no_case_at(s, i, e, ":BEFORE["@) {
        sp_named_pass(s, i, i + ":BEFORE["@.len(), e, PassKind::Before)
    } else if tag_no_case_at(s, i, e, ":FOR["@) {
        sp_named_pass(s, i, i + ":FOR["@.len(), e, PassKind::For)
    } else if tag_no_case_at(s, i, e, ":AFTER["@) {
        sp_named_pass(s, i, i + ":AFTER["@.len(), e, PassKind::After)
    } else if tag_no_case_at(s, i, e, ":LAST["@) {
        sp_named_pass(s, i, i + ":LAST["@.len(), e, PassKind::Last)
    } else if tag_no_case_at(s, i, e, ":FINAL"@) {
        let j = i + ":FINAL"@.len();
        SParsed::Done(j, Ranged { inner: SpecPass::Final, range: wrap_range(s, i, j) }, seq![])
    } else {
        SParsed::Failed(i)
    }
}

/// The two texts are the same, but for the case of ASCII letters
pub open spec fn same_text_no_case(a: Seq<char>, b: Seq<char>) -> bool {
    a.len() == b.len() && forall|k: int| 0 <= k < a.len() ==> ascii_lower(#[trigger] a[k]) == ascii_lower(b[k])
}

/// A named pass read without errors is written as the text it was read from, but for case
proof fn lemma_named_pass_text(s: Seq<char>, i: int, e: int, kw: Seq<char>, kind: PassKind)
    requires
        0 <= i,
        e <= s.len(),
        tag_no_case_at(s, i, e, kw),
        forall|m: Seq<char>| #[trigger] pass_text(named_pass(kind, m)) == kw + m + seq![']'],
    ensures
        sp_named_pass(s, i, i + kw.len(), e, kind) matches SParsed::Done(j, p, errs) ==> (errs.len() == 0
            ==> same_text_no_case(pass_text(p.inner), s.subrange(i, j))),
{
    let j0 = i + kw.len();
    let k = run_of(s, j0, e, |c: char| is_mod_char(c));
    lemma_run_of(s, j0, e, |c: char| is_mod_char(c));
    if let SParsed::Done(j, p, errs) = sp_named_pass(s, i, j0, e, kind) {
        if errs.len() == 0 && k > j0 {
            let (end, errs2) = sp_close_bracket(s, k, e);
            if 0 <= k < e && s[k] == ']' {
                let m = s.subrange(j0, k);
                let t = kw + m + seq![']'];
                assert(pass_text(p.inner) == t);
                assert(j == k + 1);
                let u = s.subrange(i, j);
                assert forall|x: int| 0 <= x < t.len() implies ascii_lower(#[trigger] t[x]) == ascii_lower(u[x]) by {
                    if x < kw.len() {
                        assert(t[x] == kw[x]);
                        assert(u[x] == s[i + x]);
                    } else if x < kw.len() + m.len() {
                        assert(t[x] == m[x - kw.len()]);
                    } else {
                        assert(t[x] == ']');
                        assert(u[x] == s[k]);
                    }
                }
            } else {
                assert((seq![] + errs2).len() > 0);
            }
        }
    }
}

/// Reading a pass gives back what was written: when a pass is read without errors, the pass is
/// written as the text it was read from, but for the case of letters (so `:BEFORE[m]` is read as
/// `Before(m)`, `:AFTER[m]` as `After(m)`)
pub proof fn lemma_pass_text_round_trip(s: Seq<char>, i: int, e: int)
    requires
        0 <= i,
        e <= s.len(),
    ensures
        sp_pass(s, i, e) matches SParsed::Done(j, p, errs) ==> (errs.len() == 0 ==> same_text_no_case(
            pass_text(p.inner),
            s.subrange(i, j),
        )),
{
    reveal_strlit(":FIRST");
    reveal_strlit(":BEFORE[");
    reveal_strlit(":FOR[");
    reveal_strlit(":AFTER[");
    reveal_strlit(":LAST[");
    reveal_strlit(":FINAL");
    reveal_strlit("]");
    assert("]"@ =~= seq![']']);
    if tag_no_case_at(s, i, e, ":FIRST"@) {
        let t = ":FIRST"@;
        let u = s.subrange(i, i + t.len());
        assert forall|x: int| 0 <= x < t.len() implies ascii_lower(#[trigger] t[x]) == ascii_lower(u[x]) by {
            assert(u[x] == s[i + x]);
        }
    } else if tag_no_case_at(s, i, e, ":BEFORE["@) {
        lemma_named_pass_text(s, i, e, ":BEFORE["@, PassKind::Before);
    } else if tag_no_case_at(s, i, e, ":FOR["@) {
        lemma_named_pass_text(s, i, e, ":FOR["@, PassKind::For);
    } else if tag_no_case_at(s, i, e, ":AFTER["@) {
        lemma_named_pass_text(s, i, e, ":AFTER["@, PassKind::After);
    } else if tag_no_case_at(s, i, e, ":LAST["@) {
        lemma_named_pass_text(s, i, e, ":LAST["@, PassKind::Last);
    } else if tag_no_case_at(s, i, e, ":FINAL"@) {
        let t = ":FINAL"@;
        let u = s.subrange(i, i + t.len());
        assert forall|x: int| 0 <= x < t.len() implies ascii_lower(#[trigger] t[x]) == ascii_lower(u[x]) by {
            assert(u[x] == s[i + x]);
        }
    }
}

impl Pass {
    /// How the pass is written
    pub fn to_string(&self) -> (r: String)
        ensures
            r@ == pass_text(self@),
    {
        match self {
            Pass::Default => String::new(),
            Pass::First => String::from_str(":FIRST"),
            Pass::Final => String::from_str(":FINAL"),
            Pass::Before(m) => named_text(":BEFORE[", m),
            Pass::For(m) => named_text(":FOR[", m),
            Pass::After(m) => named_text(":AFTER[", m),
            Pass::Last(m) => named_text(":LAST[", m),
        }
    }

    /// Parses a pass at offset `i`
    pub fn parse(src: &Src, i: usize, e: usize) -> (r: Parsed<Ranged<Pass>>)
        requires
            src.wf(),
            i <= e <= src@.len(),
        ensures
            r@ == sp_pass(src@, i as int, e as int),
            r matches Parsed::Done(q, _, _) ==> i < q <= e,
    {
        proof {
            reveal_strlit(":FIRST");
            reveal_strlit(":BEFORE[");
            reveal_strlit(":FOR[");
            reveal_strlit(":AFTER[");
            reveal_strlit(":LAST[");
            reveal_strlit(":FINAL");
        }
        if src.tag_no_case(i, e, ":FIRST") {
            let j = i + ":FIRST".unicode_len();
            return Parsed::Done(j, Ranged { inner: Pass::First, range: src.wrap(i, j) }, no_errors());
        }
        if src.tag_no_case(i, e, ":BEFORE[") {
            return parse_named(src, i, i + ":BEFORE[".unicode_len(), e, PassKind::Before);
        }
        if src.tag_no_case(i, e, ":FOR[") {
            return parse_named(src, i, i + ":FOR[".unicode_len(), e, PassKind::For);
        }
        if src.tag_no_case(i, e, ":AFTER[") {
            return parse_named(src, i, i + ":AFTER[".unicode_len(), e, PassKind::After);
        }
        if src.tag_no_case(i, e, ":LAST[") {
            return parse_named(src, i, i + ":LAST[".unicode_len(), e, PassKind::Last);
        }
        if src.tag_no_case(i, e, ":FINAL") {
            let j = i + ":FINAL".unicode_len();
            return Parsed::Done(j, Ranged { inner: Pass::Final, range: src.wrap(i, j) }, no_errors());
        }
        Parsed::Failed(i)
    }
}

fn named_text(keyword: &str, m: &String) -> (r: String)
    ensures
        r@ == keyword@ + m@ + "]"@,
{
    let mut r = String::from_str(keyword);
    r.append(m.as_str());
    r.append("]");
    r
}

fn parse_named(src: &Src, i: usize, j: usize, e: usize, kind: PassKind) -> (r: Parsed<Ranged<Pass>>)
    requires
        src.wf(),
        i <= j <= e <= src@.len(),
    ensures
        r@ == sp_named_pass(src@, i as int, j as int, e as int, kind),
        r matches Parsed::Done(q, _, _) ==> j <= q <= e,
{
    let k = src.mod_run(j, e);
    let (name, p, errs1) = if k > j {
        (src.text(j, k), k, no_errors())
    } else {
        (String::new(), j, one_error(src.expect_error(j, e, "Expected pass identifier")))
    };
    let (end, errs2) = src.close_bracket(p, e);
    let pass = match kind {
        PassKind::Before => Pass::Before(name),
        PassKind::For => Pass::For(name),
        PassKind::After => Pass::After(name),
        PassKind::Last => Pass::Last(name),
    };
    Parsed::Done(end, Ranged { inner: pass, range: src.wrap(i, end) }, join_errors(errs1, errs2))
}

} // verus!
