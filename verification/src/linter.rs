//! Lints over a parsed document: operators where the top-level node has none, Module Manager
//! syntax without an operator, and empty names and values.
use vstd::prelude::*;
use vstd::string::*;
use crate::parser::{AssignmentOperator, DocItem, Document, Operator, Range, Ranged, Severity};
use crate::parser::document::{SpecDocItem, doc_ok};
use crate::parser::has::{HasBlock, HasPredicate, SpecHasPredicate, has_predicates_view, lemma_has_predicates_view};
use crate::parser::key_val::{KeyVal, SpecKeyVal};
use crate::parser::node::{Node, NodeItem, SpecNode, SpecNodeItem, item_not_top, items_not_top, lemma_node_items_view, node_items_view};
use crate::parser::range::{combined, range_hull};
use crate::text::push_char;

verus! {

/// The URL type of the `url` crate, which the linter carries through its diagnostics
#[verifier::external_type_specification]
#[verifier::external_body]
pub struct ExUrl(url::Url);

/// Calls `url::Url::clone`. `Url` derives `Clone`, so the clone copies every field of the URL
/// (its serialization and the offsets into it): the copy is the same URL.
#[verifier::external_body]
pub(crate) fn clone_url(u: &url::Url) -> (r: url::Url)
    ensures
        r == *u,
{
    u.clone()
}

pub(crate) fn clone_opt_url(u: &Option<url::Url>) -> (r: Option<url::Url>)
    ensures
        r == *u,
{
    match u {
        Some(u) => Some(clone_url(u)),
        None => None,
    }
}

/// A location in a (optional) file
pub struct Location {
    /// An optional Url to the file
    pub url: Option<url::Url>,
    /// The range of the location
    pub range: Range,
}

impl Location {
    /// A copy of the location
    pub fn clone_location(&self) -> (r: Location)
        ensures
            r == *self,
    {
        Location { url: clone_opt_url(&self.url), range: self.range }
    }
}

/// Information relating to another diagnostic
pub struct RelatedInformation {
    /// The message provided for the related info
    pub message: String,
    /// The location of the related info
    pub location: Location,
}

/// [`RelatedInformation`] with its message as a character sequence
pub struct SpecRelated {
    /// The message
    pub message: Seq<char>,
    /// The location
    pub location: Location,
}

impl View for RelatedInformation {
    type V = SpecRelated;

    open spec fn view(&self) -> SpecRelated {
        SpecRelated { message: self.message@, location: self.location }
    }
}

/// Struct for a diagnostic message, like an error or warning
pub struct Diagnostic {
    /// The text range the diagnostic covers
    pub range: Range,
    /// The severity of the diagnostic
    pub severity: Option<Severity>,
    /// The message provided as an explanation for the diagnostic
    pub message: String,
    /// The source text causing the diagnostic
    pub source: Option<String>,
    /// Any related information to the diagnostic, if applicable
    pub related_information: Option<Vec<RelatedInformation>>,
}

/// A [`Diagnostic`] with its texts as character sequences
pub struct SpecDiagnostic {
    /// The range covered
    pub range: Range,
    /// The severity
    pub severity: Option<Severity>,
    /// The message
    pub message: Seq<char>,
    /// The source
    pub source: Option<Seq<char>>,
    /// Related information
    pub related_information: Option<Seq<SpecRelated>>,
}

impl View for Diagnostic {
    type V = SpecDiagnostic;

    open spec fn view(&self) -> SpecDiagnostic {
        SpecDiagnostic {
            range: self.range,
            severity: self.severity,
            message: self.message@,
            source: match self.source {
                Some(s) => Some(s@),
                None => None,
            },
            related_information: match self.related_information {
                Some(v) => Some(v@.map_values(|x: RelatedInformation| x@)),
                None => None,
            },
        }
    }
}

impl Default for Diagnostic {
    fn default() -> (r: Self)
        ensures
            r@ == (SpecDiagnostic {
                range: Range { start: crate::parser::Position { line: 0, col: 0 }, end: crate::parser::Position { line: 0, col: 0 } },
                severity: None,
                message: seq![],
                source: None,
                related_information: None,
            }),
    {
        let r = Diagnostic {
            range: Range::new(0, 0, 0, 0),
            severity: None,
            message: String::new(),
            source: None,
            related_information: None,
        };
        r
    }
}

/// The views of a list of diagnostics
pub open spec fn diags_view(v: Seq<Diagnostic>) -> Seq<SpecDiagnostic> {
    v.map_values(|d: Diagnostic| d@)
}

/// What the linter carries down the tree
pub struct LinterState {
    /// The file being linted
    pub this_url: Option<url::Url>,
    /// Where the top-level node without an operator that encloses this point is, if any
    pub top_level_no_op: Option<Location>,
}

/// A diagnostic with a range, a severity and a message only
pub open spec fn plain_diag(range: Range, severity: Severity, message: Seq<char>) -> SpecDiagnostic {
    SpecDiagnostic { range, severity: Some(severity), message, source: None, related_information: None }
}

/// A diagnostic about an operator below a top-level node without one
pub open spec fn op_in_noop_diag(range: Range, message: Seq<char>, loc: Location) -> SpecDiagnostic {
    SpecDiagnostic {
        range,
        severity: Some(Severity::Warning),
        message,
        source: Some("Unexpected_operator"@),
        related_information: Some(seq![SpecRelated { message: "This is where it happened"@, location: loc }]),
    }
}

/// A diagnostic with one piece of related information
pub open spec fn related_diag(range: Range, message: Seq<char>, related_range: Range, url: Option<url::Url>, related: Seq<char>) -> SpecDiagnostic {
    SpecDiagnostic {
        range,
        severity: Some(Severity::Warning),
        message,
        source: None,
        related_information: Some(seq![SpecRelated { message: related, location: Location { url, range: related_range } }]),
    }
}

/// The diagnostics of a HAS predicate: a key predicate with an empty value is reported
pub open spec fn lint_has_predicate(p: SpecHasPredicate) -> Seq<SpecDiagnostic>
    decreases p,
{
    match p {
        SpecHasPredicate::Node { has_block, .. } => match has_block {
            Some(b) => lint_has_predicates(b.inner),
            None => seq![],
        },
        SpecHasPredicate::Key { value, .. } => match value {
            Some(v) => if v.inner.len() == 0 {
                seq![plain_diag(v.range, Severity::Info, "Expected value"@)]
            } else {
                seq![]
            },
            None => seq![],
        },
    }
}

/// The diagnostics of HAS predicates, one after the other
pub open spec fn lint_has_predicates(q: Seq<Ranged<SpecHasPredicate>>) -> Seq<SpecDiagnostic>
    decreases q,
{
    if q.len() == 0 {
        seq![]
    } else {
        lint_has_predicates(q.drop_last()) + lint_has_predicate(q.last().inner)
    }
}

/// The ranges of a node's names, HAS block, NEEDS block, index and pass, those it has
pub open spec fn rest_of_id_ranges(n: SpecNode) -> Seq<Range> {
    (match n.name {
        Some(x) => seq![x.range],
        None => seq![],
    }) + (match n.has {
        Some(x) => seq![x.range],
        None => seq![],
    }) + (match n.needs {
        Some(x) => seq![x.range],
        None => seq![],
    }) + (match n.index {
        Some(x) => seq![x.range],
        None => seq![],
    }) + (match n.pass {
        Some(x) => seq![x.range],
        None => seq![],
    })
}

/// The smallest range covering all the ranges, taken from the first on
pub open spec fn hull_all(s: Seq<Range>) -> Range
    decreases s.len(),
{
    if s.len() <= 1 {
        s[0]
    } else {
        range_hull(hull_all(s.drop_last()), s.last())
    }
}

/// The range covering the rest of a node's identifier line, if it has any of it
pub open spec fn rest_of_id_range(n: SpecNode) -> Option<Range> {
    let s = rest_of_id_ranges(n);
    if s.len() == 0 {
        None
    } else {
        Some(hull_all(s))
    }
}

/// The ranges of an assignment's array index, index and assignment operator (when it is not
/// `=`), combined
pub open spec fn rest_of_name_ranges(kv: SpecKeyVal) -> Seq<Range> {
    combined(
        (match kv.array_index {
            Some(x) => seq![x.range],
            None => seq![],
        }) + (match kv.index {
            Some(x) => seq![x.range],
            None => seq![],
        }) + (if kv.assignment_operator.inner != AssignmentOperator::Assign {
            seq![kv.assignment_operator.range]
        } else {
            seq![]
        }),
    )
}

/// The diagnostics of an assignment, and whether it has an operator below a top-level node
/// without one
pub open spec fn lint_key_val(kv: Ranged<SpecKeyVal>, st: LinterState) -> (Seq<SpecDiagnostic>, bool) {
    let k = kv.inner;
    let op_in_noop = st.top_level_no_op is Some && k.operator is Some;
    let d1 = if op_in_noop {
        seq![op_in_noop_diag(k.operator.unwrap().range, "Key has operator, even though the top level does not!"@, st.top_level_no_op.unwrap())]
    } else {
        seq![]
    };
    let d2 = if k.operator is Some || k.path is Some {
        seq![]
    } else {
        let ranges = rest_of_name_ranges(k);
        let ds = ranges.map_values(|r: Range| related_diag(r, "No operator on KeyVal, but MM is used. this is likely not correct"@, kv.range, st.this_url, "Expected operator here"@));
        if ds.len() > 0 {
            ds.push(plain_diag(Range { start: kv.range.start, end: kv.range.start }, Severity::Hint, "This key contains MM, but has no operator"@))
        } else {
            ds
        }
    };
    let d3 = if k.assignment_operator.inner == AssignmentOperator::RegexReplace && !(k.operator matches Some(o) && o.inner == Operator::Edit) {
        seq![related_diag(k.assignment_operator.range, "Regex-replace assignment operation was used without the key-val operator being Edit"@, kv.range, st.this_url, "Expected Edit operator here"@)]
    } else {
        seq![]
    };
    (d1 + d2 + d3, op_in_noop)
}

/// The state for the items of a node's block
pub open spec fn inner_state(n: SpecNode, range: Range, st: LinterState) -> LinterState {
    LinterState {
        this_url: st.this_url,
        top_level_no_op: if n.top_level && n.operator is None {
            Some(Location { url: st.this_url, range })
        } else {
            st.top_level_no_op
        },
    }
}

/// The diagnostics a node gives before its block's
pub open spec fn node_own_diags(n: SpecNode, st: LinterState) -> Seq<SpecDiagnostic> {
    (if st.top_level_no_op is Some && n.operator is Some {
        seq![op_in_noop_diag(n.operator.unwrap().range, "Node has operator, even though the top level does not!"@, st.top_level_no_op.unwrap())]
    } else {
        seq![]
    }) + (if n.name matches Some(nm) && nm.inner.len() > 1 && !n.top_level {
        seq![plain_diag(n.name.unwrap().range, Severity::Warning, "names separated by '|' is only interpreted as OR in a top level node. Here, it's interpreted literally."@)]
    } else {
        seq![]
    }) + (if n.operator is None && rest_of_id_range(n) is Some {
        seq![plain_diag(rest_of_id_range(n).unwrap(), Severity::Warning, "No operator, but MM is used. this is likely not correct"@)]
    } else {
        seq![]
    }) + (if n.name matches Some(nm) && nm.inner.len() == 0 {
        seq![plain_diag(n.name.unwrap().range, Severity::Warning, "Expected Name"@)]
    } else {
        seq![]
    }) + (match n.has {
        Some(h) => lint_has_predicates(h.inner),
        None => seq![],
    })
}

/// The diagnostics of a node with the given range, and whether it or something in it has an
/// operator below a top-level node without one. A top-level node that has an operator, with such
/// an operator below it, has no location to point its hint to: `None` there (the lint would panic).
pub open spec fn lint_node(n: SpecNode, range: Range, st: LinterState) -> Option<(Seq<SpecDiagnostic>, bool)>
    decreases n,
{
    let st2 = inner_state(n, range, st);
    match lint_items(n.block, st2) {
        None => None,
        Some((item_diags, item_result)) => {
            let result = (st.top_level_no_op is Some && n.operator is Some) || item_result;
            if n.top_level && result {
                match st2.top_level_no_op {
                    Some(loc) => Some(
                        (
                            node_own_diags(n, st) + item_diags + seq![plain_diag(loc.range, Severity::Hint, "This node has no operator, but contains something that does have an operator"@)],
                            result,
                        ),
                    ),
                    None => None,
                }
            } else {
                Some((node_own_diags(n, st) + item_diags, result))
            }
        },
    }
}

/// The diagnostics of an item of a block
pub open spec fn lint_item(x: SpecNodeItem, st: LinterState) -> Option<(Seq<SpecDiagnostic>, bool)>
    decreases x,
{
    match x {
        SpecNodeItem::Node(n) => lint_node(n.inner, n.range, st),
        SpecNodeItem::KeyVal(kv) => Some(lint_key_val(kv, st)),
        _ => Some((seq![], false)),
    }
}

/// The diagnostics of the items of a block, one after the other
pub open spec fn lint_items(v: Seq<SpecNodeItem>, st: LinterState) -> Option<(Seq<SpecDiagnostic>, bool)>
    decreases v,
{
    if v.len() == 0 {
        Some((seq![], false))
    } else {
        match lint_items(v.drop_last(), st) {
            None => None,
            Some((d1, r1)) => match lint_item(v.last(), st) {
                None => None,
                Some((d2, r2)) => Some((d1 + d2, r1 || r2)),
            },
        }
    }
}

/// The diagnostics of the statements of a document
pub open spec fn lint_doc(v: Seq<SpecDocItem>, st: LinterState) -> Option<Seq<SpecDiagnostic>>
    decreases v.len(),
{
    if v.len() == 0 {
        Some(seq![])
    } else {
        match lint_doc(v.drop_last(), st) {
            None => None,
            Some(d1) => match v.last() {
                SpecDocItem::Node(n) => match lint_node(n.inner, n.range, st) {
                    None => None,
                    Some((d2, _)) => Some(d1 + d2),
                },
                _ => Some(d1),
            },
        }
    }
}

fn plain(range: Range, severity: Severity, message: &str) -> (r: Diagnostic)
    ensures
        r@ == plain_diag(range, severity, message@),
{
    Diagnostic { range, severity: Some(severity), message: String::from_str(message), source: None, related_information: None }
}

fn with_related(range: Range, message: &str, related_range: Range, url: &Option<url::Url>, related: &str) -> (r: Diagnostic)
    ensures
        r@ == related_diag(range, message@, related_range, *url, related@),
{
    let mut info: Vec<RelatedInformation> = Vec::new();
    info.push(RelatedInformation { message: String::from_str(related), location: Location { url: clone_opt_url(url), range: related_range } });
    let r = Diagnostic {
        range,
        severity: Some(Severity::Warning),
        message: String::from_str(message),
        source: None,
        related_information: Some(info),
    };
    assert(r@.related_information.unwrap() =~= seq![SpecRelated { message: related@, location: Location { url: *url, range: related_range } }]);
    r
}

fn op_in_noop_diagnostic(range: Range, message: &str, loc: &Location) -> (r: Diagnostic)
    ensures
        r@ == op_in_noop_diag(range, message@, *loc),
{
    let mut info: Vec<RelatedInformation> = Vec::new();
    info.push(RelatedInformation { message: String::from_str("This is where it happened"), location: loc.clone_location() });
    let r = Diagnostic {
        range,
        severity: Some(Severity::Warning),
        message: String::from_str(message),
        source: Some(String::from_str("Unexpected_operator")),
        related_information: Some(info),
    };
    assert(r@.related_information.unwrap() =~= seq![SpecRelated { message: "This is where it happened"@, location: *loc }]);
    r
}

fn append_diags(a: &mut Vec<Diagnostic>, b: Vec<Diagnostic>)
    ensures
        diags_view(final(a)@) == diags_view(old(a)@) + diags_view(b@),
{
    let ghost bv = b@;
    let mut b = b;
    a.append(&mut b);
    assert(diags_view(a@) =~= diags_view(old(a)@) + diags_view(bv));
}

impl HasPredicate {
    /// The diagnostics of the predicate: a key predicate with an empty value is reported
    pub fn lint(&self, range: Range) -> (r: Vec<Diagnostic>)
        ensures
            diags_view(r@) == lint_has_predicate(self@),
        decreases self,
    {
        match self {
            HasPredicate::NodePredicate { has_block, .. } => match has_block {
                Some(b) => b.inner.lint(),
                None => {
                    let r: Vec<Diagnostic> = Vec::new();
                    assert(diags_view(r@) =~= Seq::<SpecDiagnostic>::empty());
                    r
                },
            },
            HasPredicate::KeyPredicate { value, .. } => {
                let mut r: Vec<Diagnostic> = Vec::new();
                match value {
                    Some(v) => {
                        if v.inner.as_str().unicode_len() == 0 {
                            r.push(plain(v.range, Severity::Info, "Expected value"));
                        }
                    },
                    None => {},
                }
                assert(diags_view(r@) =~= lint_has_predicate(self@));
                r
            },
        }
    }
}

impl HasBlock {
    /// The diagnostics of the predicates, one after the other
    pub fn lint(&self) -> (r: Vec<Diagnostic>)
        ensures
            diags_view(r@) == lint_has_predicates(self@),
        decreases self,
    {
        proof {
            lemma_has_predicates_view(self.predicates@);
        }
        let ghost v = self@;
        let mut r: Vec<Diagnostic> = Vec::new();
        let mut k: usize = 0;
        assert(diags_view(r@) =~= Seq::<SpecDiagnostic>::empty());
        while k < self.predicates.len()
            invariant
                k <= self.predicates@.len(),
                v == self.predicates@.map_values(|x: Ranged<HasPredicate>| x@),
                diags_view(r@) == lint_has_predicates(v.take(k as int)),
            decreases self.predicates.len() - k,
        {
            let d = self.predicates[k].inner.lint(self.predicates[k].range);
            append_diags(&mut r, d);
            assert(v.take(k + 1).drop_last() =~= v.take(k as int));
            k = k + 1;
        }
        assert(v.take(k as int) =~= v);
        r
    }
}

/// The ranges of the array index, index and assignment operator (when it is not `=`), combined
fn range_for_rest_of_name(key_val: &KeyVal) -> (r: Vec<Range>)
    ensures
        r@ == rest_of_name_ranges(key_val@),
{
    let mut ranges: Vec<Range> = Vec::new();
    match &key_val.array_index {
        Some(x) => ranges.push(x.range),
        None => {},
    }
    match &key_val.index {
        Some(x) => ranges.push(x.range),
        None => {},
    }
    match key_val.assignment_operator.inner {
        AssignmentOperator::Assign => {},
        _ => ranges.push(key_val.assignment_operator.range),
    }
    let ghost all = ranges@;
    assert(all =~= (match key_val@.array_index {
        Some(x) => seq![x.range],
        None => seq![],
    }) + (match key_val@.index {
        Some(x) => seq![x.range],
        None => seq![],
    }) + (if key_val@.assignment_operator.inner != AssignmentOperator::Assign {
        seq![key_val@.assignment_operator.range]
    } else {
        seq![]
    }));
    Range::combine_ranges(ranges)
}

/// Module Manager syntax on an assignment without an operator or path: each such range is
/// reported, then a hint at the start of the assignment
fn noop_but_mm_key_val(key_val: &Ranged<KeyVal>, st: &LinterState) -> (r: Vec<Diagnostic>)
    ensures
        diags_view(r@) == (if key_val@.inner.operator is Some || key_val@.inner.path is Some {
            seq![]
        } else {
            let ds = rest_of_name_ranges(key_val@.inner).map_values(|r: Range| related_diag(r, "No operator on KeyVal, but MM is used. this is likely not correct"@, key_val.range, st.this_url, "Expected operator here"@));
            if ds.len() > 0 {
                ds.push(plain_diag(Range { start: key_val.range.start, end: key_val.range.start }, Severity::Hint, "This key contains MM, but has no operator"@))
            } else {
                ds
            }
        }),
{
    let mut r: Vec<Diagnostic> = Vec::new();
    if key_val.inner.operator.is_some() || key_val.inner.path.is_some() {
        assert(diags_view(r@) =~= Seq::<SpecDiagnostic>::empty());
        return r;
    }
    let ranges = range_for_rest_of_name(&key_val.inner);
    let ghost want = ranges@.map_values(|r: Range| related_diag(r, "No operator on KeyVal, but MM is used. this is likely not correct"@, key_val.range, st.this_url, "Expected operator here"@));
    let mut k: usize = 0;
    while k < ranges.len()
        invariant
            k <= ranges@.len(),
            want == ranges@.map_values(|r: Range| related_diag(r, "No operator on KeyVal, but MM is used. this is likely not correct"@, key_val.range, st.this_url, "Expected operator here"@)),
            diags_view(r@) == want.take(k as int),
        decreases ranges.len() - k,
    {
        let d = with_related(ranges[k], "No operator on KeyVal, but MM is used. this is likely not correct", key_val.range, &st.this_url, "Expected operator here");
        let ghost old_r = r@;
        r.push(d);
        assert(diags_view(r@) =~= diags_view(old_r).push(d@));
        assert(want.take(k + 1) =~= want.take(k as int).push(want[k as int]));
        k = k + 1;
    }
    assert(want.take(k as int) =~= want);
    if r.len() > 0 {
        let ghost old_r = r@;
        r.push(plain(key_val.range.to_start(), Severity::Hint, "This key contains MM, but has no operator"));
        assert(diags_view(r@) =~= diags_view(old_r).push(plain_diag(Range { start: key_val.range.start, end: key_val.range.start }, Severity::Hint, "This key contains MM, but has no operator"@)));
    }
    r
}

/// The diagnostics of an assignment, and whether it has an operator below a top-level node
/// without one
fn lint_key_val_exec(key_val: &Ranged<KeyVal>, st: &LinterState) -> (r: (Vec<Diagnostic>, bool))
    ensures
        (diags_view(r.0@), r.1) == lint_key_val(key_val@, *st),
{
    let k = &key_val.inner;
    let mut items: Vec<Diagnostic> = Vec::new();
    let mut result = false;
    match (&st.top_level_no_op, &k.operator) {
        (Some(loc), Some(op)) => {
            result = true;
            items.push(op_in_noop_diagnostic(op.range, "Key has operator, even though the top level does not!", loc));
        },
        _ => {},
    }
    let ghost d1 = diags_view(items@);
    let mm = noop_but_mm_key_val(key_val, st);
    append_diags(&mut items, mm);
    let ghost d2 = diags_view(items@);
    let is_regex = match k.assignment_operator.inner {
        AssignmentOperator::RegexReplace => true,
        _ => false,
    };
    let is_edit = match &k.operator {
        Some(o) => match o.inner {
            Operator::Edit => true,
            _ => false,
        },
        None => false,
    };
    if is_regex && !is_edit {
        let d = with_related(k.assignment_operator.range, "Regex-replace assignment operation was used without the key-val operator being Edit", key_val.range, &st.this_url, "Expected Edit operator here");
        let ghost old_items = items@;
        items.push(d);
        assert(diags_view(items@) =~= diags_view(old_items) + seq![d@]);
    } else {
        assert(diags_view(items@) =~= diags_view(items@) + Seq::<SpecDiagnostic>::empty());
    }
    proof {
        let (want, res) = lint_key_val(key_val@, *st);
        if st.top_level_no_op is Some && k.operator is Some {
            assert(d1 =~= seq![op_in_noop_diag(k@.operator.unwrap().range, "Key has operator, even though the top level does not!"@, st.top_level_no_op.unwrap())]);
        } else {
            assert(d1 =~= Seq::<SpecDiagnostic>::empty());
        }
    }
    (items, result)
}

/// The range covering the rest of the node's identifier line: its names, HAS block, NEEDS
/// block, index and pass
fn range_for_rest_of_id(node: &Node) -> (r: Option<Range>)
    ensures
        r == rest_of_id_range(node@),
{
    let mut ranges: Vec<Range> = Vec::new();
    match &node.name {
        Some(x) => ranges.push(x.range),
        None => {},
    }
    match &node.has {
        Some(x) => ranges.push(x.range),
        None => {},
    }
    match &node.needs {
        Some(x) => ranges.push(x.range),
        None => {},
    }
    match &node.index {
        Some(x) => ranges.push(x.range),
        None => {},
    }
    match &node.pass {
        Some(x) => ranges.push(x.range),
        None => {},
    }
    let ghost v = ranges@;
    assert(v =~= rest_of_id_ranges(node@));
    if ranges.len() == 0 {
        return None;
    }
    let mut acc = ranges[0];
    let mut k: usize = 1;
    assert(v.take(1) =~= seq![v[0]]);
    while k < ranges.len()
        invariant
            1 <= k <= ranges@.len(),
            v == ranges@,
            acc == hull_all(v.take(k as int)),
        decreases ranges.len() - k,
    {
        acc = acc.add(ranges[k]);
        assert(v.take(k + 1).drop_last() =~= v.take(k as int));
        k = k + 1;
    }
    assert(v.take(k as int) =~= v);
    Some(acc)
}

/// The diagnostics a node gives before its block's
fn node_own_diagnostics(node: &Node, st: &LinterState) -> (r: Vec<Diagnostic>)
    ensures
        diags_view(r@) == node_own_diags(node@, *st),
{
    let ghost n = node@;
    let mut items: Vec<Diagnostic> = Vec::new();
    match (&st.top_level_no_op, &node.operator) {
        (Some(loc), Some(op)) => {
            items.push(op_in_noop_diagnostic(op.range, "Node has operator, even though the top level does not!", loc));
        },
        _ => {},
    }
    let ghost d1 = diags_view(items@);
    match &node.name {
        Some(nm) => {
            if nm.inner.len() > 1 && !node.top_level {
                items.push(plain(nm.range, Severity::Warning, "names separated by '|' is only interpreted as OR in a top level node. Here, it's interpreted literally."));
            }
        },
        None => {},
    }
    let ghost d2 = diags_view(items@);
    if node.operator.is_none() {
        match range_for_rest_of_id(node) {
            Some(r) => {
                items.push(plain(r, Severity::Warning, "No operator, but MM is used. this is likely not correct"));
            },
            None => {},
        }
    }
    let ghost d3 = diags_view(items@);
    match &node.name {
        Some(nm) => {
            if nm.inner.len() == 0 {
                items.push(plain(nm.range, Severity::Warning, "Expected Name"));
            }
        },
        None => {},
    }
    let ghost d4 = diags_view(items@);
    match &node.has {
        Some(h) => {
            let d = h.inner.lint();
            append_diags(&mut items, d);
        },
        None => {},
    }
    proof {
        let p1 = if st.top_level_no_op is Some && n.operator is Some {
            seq![op_in_noop_diag(n.operator.unwrap().range, "Node has operator, even though the top level does not!"@, st.top_level_no_op.unwrap())]
        } else {
            seq![]
        };
        let p2 = if n.name matches Some(nm) && nm.inner.len() > 1 && !n.top_level {
            seq![plain_diag(n.name.unwrap().range, Severity::Warning, "names separated by '|' is only interpreted as OR in a top level node. Here, it's interpreted literally."@)]
        } else {
            seq![]
        };
        let p3 = if n.operator is None && rest_of_id_range(n) is Some {
            seq![plain_diag(rest_of_id_range(n).unwrap(), Severity::Warning, "No operator, but MM is used. this is likely not correct"@)]
        } else {
            seq![]
        };
        let p4 = if n.name matches Some(nm) && nm.inner.len() == 0 {
            seq![plain_diag(n.name.unwrap().range, Severity::Warning, "Expected Name"@)]
        } else {
            seq![]
        };
        assert(d1 =~= p1);
        assert(d2 =~= p1 + p2);
        assert(d3 =~= p1 + p2 + p3);
        assert(d4 =~= p1 + p2 + p3 + p4);
    }
    items
}

/// The state for the items of a node's block
fn inner_state_exec(node: &Node, range: Range, st: &LinterState) -> (r: LinterState)
    ensures
        r == inner_state(node@, range, *st),
{
    let top_level_no_op = if node.top_level && node.operator.is_none() {
        Some(Location { url: clone_opt_url(&st.this_url), range })
    } else {
        match &st.top_level_no_op {
            Some(l) => Some(l.clone_location()),
            None => None,
        }
    };
    LinterState { this_url: clone_opt_url(&st.this_url), top_level_no_op }
}

/// The diagnostics of a node with the given range; `None` where the lint would panic
fn lint_node_exec(node: &Node, range: Range, st: &LinterState) -> (r: Option<(Vec<Diagnostic>, bool)>)
    ensures
        lint_node(node@, range, *st) == (match r {
            Some(x) => Some((diags_view(x.0@), x.1)),
            None => None,
        }),
    decreases node,
{
    let st2 = inner_state_exec(node, range, st);
    let (item_diags, item_result) = match lint_items_exec(&node.block, &st2) {
        None => {
            return None;
        },
        Some(x) => x,
    };
    let mut items = node_own_diagnostics(node, st);
    append_diags(&mut items, item_diags);
    let result = (st.top_level_no_op.is_some() && node.operator.is_some()) || item_result;
    if node.top_level && result {
        match &st2.top_level_no_op {
            Some(loc) => {
                let ghost old_items = items@;
                items.push(plain(loc.range, Severity::Hint, "This node has no operator, but contains something that does have an operator"));
                assert(diags_view(items@) =~= diags_view(old_items) + seq![plain_diag(loc.range, Severity::Hint, "This node has no operator, but contains something that does have an operator"@)]);
            },
            None => {
                return None;
            },
        }
    }
    Some((items, result))
}

/// The diagnostics of an item of a block
fn lint_item_exec(x: &NodeItem, st: &LinterState) -> (r: Option<(Vec<Diagnostic>, bool)>)
    ensures
        lint_item(x@, *st) == (match r {
            Some(x) => Some((diags_view(x.0@), x.1)),
            None => None,
        }),
    decreases x,
{
    match x {
        NodeItem::Node(n) => lint_node_exec(&n.inner, n.range, st),
        NodeItem::KeyVal(kv) => Some(lint_key_val_exec(kv, st)),
        _ => {
            let r: Vec<Diagnostic> = Vec::new();
            assert(diags_view(r@) =~= Seq::<SpecDiagnostic>::empty());
            Some((r, false))
        },
    }
}

/// The diagnostics of the items of a block, one after the other
fn lint_items_exec(v: &Vec<NodeItem>, st: &LinterState) -> (r: Option<(Vec<Diagnostic>, bool)>)
    ensures
        lint_items(node_items_view(v@), *st) == (match r {
            Some(x) => Some((diags_view(x.0@), x.1)),
            None => None,
        }),
    decreases v,
{
    proof {
        lemma_node_items_view(v@);
    }
    let ghost sv = node_items_view(v@);
    let mut items: Vec<Diagnostic> = Vec::new();
    let mut result = false;
    let mut k: usize = 0;
    assert(diags_view(items@) =~= Seq::<SpecDiagnostic>::empty());
    while k < v.len()
        invariant
            k <= v@.len(),
            sv == v@.map_values(|x: NodeItem| x@),
            sv == node_items_view(v@),
            lint_items(sv.take(k as int), *st) == Some((diags_view(items@), result)),
        decreases v.len() - k,
    {
        assert(sv.take(k + 1).drop_last() =~= sv.take(k as int));
        assert(sv.take(k + 1).last() == v@[k as int]@);
        match lint_item_exec(&v[k], st) {
            None => {
                proof {
                    lemma_lint_items_none(sv, k as int, *st);
                }
                return None;
            },
            Some((d, res)) => {
                append_diags(&mut items, d);
                result = result || res;
            },
        }
        k = k + 1;
    }
    assert(sv.take(k as int) =~= sv);
    Some((items, result))
}

/// Once an item's lint would panic, so would the lint of any longer list of items
proof fn lemma_lint_items_none(v: Seq<SpecNodeItem>, k: int, st: LinterState)
    requires
        0 <= k < v.len(),
        lint_items(v.take(k + 1), st) is None,
    ensures
        lint_items(v, st) is None,
    decreases v.len(),
{
    if k + 1 < v.len() {
        assert(v.drop_last().take(k + 1) =~= v.take(k + 1));
        lemma_lint_items_none(v.drop_last(), k, st);
    } else {
        assert(v.take(k + 1) =~= v);
    }
}

/// The diagnostics of a document's statements; `None` where the lint would panic
fn lint_doc_exec(doc: &Document, st: &LinterState) -> (r: Option<Vec<Diagnostic>>)
    ensures
        lint_doc(doc@, *st) == (match r {
            Some(x) => Some(diags_view(x@)),
            None => None,
        }),
{
    let ghost sv = doc@;
    let mut items: Vec<Diagnostic> = Vec::new();
    let mut k: usize = 0;
    assert(diags_view(items@) =~= Seq::<SpecDiagnostic>::empty());
    while k < doc.statements.len()
        invariant
            k <= doc.statements@.len(),
            sv == doc@,
            lint_doc(sv.take(k as int), *st) == Some(diags_view(items@)),
        decreases doc.statements.len() - k,
    {
        assert(sv.take(k + 1).drop_last() =~= sv.take(k as int));
        assert(sv.take(k + 1).last() == doc.statements@[k as int]@);
        match &doc.statements[k] {
            DocItem::Node(n) => {
                match lint_node_exec(&n.inner, n.range, st) {
                    None => {
                        proof {
                            lemma_lint_doc_none(sv, k as int, *st);
                        }
                        return None;
                    },
                    Some((d, _)) => {
                        append_diags(&mut items, d);
                    },
                }
            },
            _ => {},
        }
        k = k + 1;
    }
    assert(sv.take(k as int) =~= sv);
    Some(items)
}

/// Once a statement's lint would panic, so would the lint of the whole document
proof fn lemma_lint_doc_none(v: Seq<SpecDocItem>, k: int, st: LinterState)
    requires
        0 <= k < v.len(),
        lint_doc(v.take(k + 1), st) is None,
    ensures
        lint_doc(v, st) is None,
    decreases v.len(),
{
    if k + 1 < v.len() {
        assert(v.drop_last().take(k + 1) =~= v.take(k + 1));
        lemma_lint_doc_none(v.drop_last(), k, st);
    } else {
        assert(v.take(k + 1) =~= v);
    }
}

/// Takes a `Document` and lints the AST. The document must be one whose lint does not panic
/// (see [`try_lint_ast`]); those the parser gives are.
pub fn lint_ast(ast: &Document, this_url: Option<url::Url>) -> (r: Vec<Diagnostic>)
    requires
        lint_doc(ast@, LinterState { this_url, top_level_no_op: None }) is Some,
    ensures
        lint_doc(ast@, LinterState { this_url, top_level_no_op: None }) == Some(diags_view(r@)),
{
    let st = LinterState { this_url, top_level_no_op: None };
    match lint_doc_exec(ast, &st) {
        Some(d) => d,
        None => Vec::new(),
    }
}

/// Takes a `Document` and lints the AST; `None` for a document whose lint panics (one where a
/// node marked as top-level, with an operator, holds an operator below a node without one)
pub fn try_lint_ast(ast: &Document, this_url: Option<url::Url>) -> (r: Option<Vec<Diagnostic>>)
    ensures
        lint_doc(ast@, LinterState { this_url, top_level_no_op: None }) == (match r {
            Some(x) => Some(diags_view(x@)),
            None => None,
        }),
{
    let st = LinterState { this_url, top_level_no_op: None };
    lint_doc_exec(ast, &st)
}

/// The lint of a node that is not marked as top-level, with none inside it either, does not panic
pub proof fn lemma_lint_node_some(n: SpecNode, range: Range, st: LinterState)
    requires
        !n.top_level,
        items_not_top(n.block),
    ensures
        lint_node(n, range, st) is Some,
    decreases n,
{
    lemma_lint_items_some(n.block, inner_state(n, range, st));
}

/// The lint of items with no node marked as top-level among or inside them does not panic
pub proof fn lemma_lint_items_some(v: Seq<SpecNodeItem>, st: LinterState)
    requires
        items_not_top(v),
    ensures
        lint_items(v, st) is Some,
    decreases v,
{
    if v.len() > 0 {
        lemma_lint_items_some(v.drop_last(), st);
        assert(items_not_top(v.drop_last()) && item_not_top(v.last()));
        match v.last() {
            SpecNodeItem::Node(n) => {
                assert(!n.inner.top_level && items_not_top(n.inner.block));
                lemma_lint_node_some(n.inner, n.range, st);
                assert(lint_item(v.last(), st) == lint_node(n.inner, n.range, st));
            },
            _ => {},
        }
        assert(lint_item(v.last(), st) is Some);
    }
}

/// A regex replacement (`^=`) is meant for a key with the Edit operator (`@`): the linter warns
/// about the assignment exactly when it is a regex replacement whose key does not have that
/// operator
pub proof fn lemma_regex_needs_edit(kv: Ranged<SpecKeyVal>, st: LinterState)
    ensures
        (exists|i: int|
            0 <= i < lint_key_val(kv, st).0.len() && (#[trigger] lint_key_val(kv, st).0[i]).message
                == "Regex-replace assignment operation was used without the key-val operator being Edit"@)
            <==> (kv.inner.assignment_operator.inner == AssignmentOperator::RegexReplace && !(kv.inner.operator matches Some(
            o) && o.inner == Operator::Edit)),
{
    let msg = "Regex-replace assignment operation was used without the key-val operator being Edit"@;
    let k = kv.inner;
    let m1 = "Key has operator, even though the top level does not!"@;
    let m2 = "No operator on KeyVal, but MM is used. this is likely not correct"@;
    let m3 = "This key contains MM, but has no operator"@;
    reveal_strlit("Regex-replace assignment operation was used without the key-val operator being Edit");
    reveal_strlit("Key has operator, even though the top level does not!");
    reveal_strlit("No operator on KeyVal, but MM is used. this is likely not correct");
    reveal_strlit("This key contains MM, but has no operator");
    assert(m1 != msg) by {
        assert(m1[0] != msg[0]);
    }
    assert(m2 != msg) by {
        assert(m2[0] != msg[0]);
    }
    assert(m3 != msg) by {
        assert(m3[0] != msg[0]);
    }
    let op_in_noop = st.top_level_no_op is Some && k.operator is Some;
    let d1 = if op_in_noop {
        seq![op_in_noop_diag(k.operator.unwrap().range, m1, st.top_level_no_op.unwrap())]
    } else {
        seq![]
    };
    let ranges = rest_of_name_ranges(k);
    let ds = ranges.map_values(|r: Range| related_diag(r, m2, kv.range, st.this_url, "Expected operator here"@));
    let d2 = if k.operator is Some || k.path is Some {
        seq![]
    } else {
        if ds.len() > 0 {
            ds.push(plain_diag(Range { start: kv.range.start, end: kv.range.start }, Severity::Hint, m3))
        } else {
            ds
        }
    };
    let cond = k.assignment_operator.inner == AssignmentOperator::RegexReplace && !(k.operator matches Some(o) && o.inner
        == Operator::Edit);
    let d3 = if cond {
        seq![related_diag(k.assignment_operator.range, msg, kv.range, st.this_url, "Expected Edit operator here"@)]
    } else {
        seq![]
    };
    let d = lint_key_val(kv, st).0;
    assert(d == d1 + d2 + d3);
    assert forall|i: int| 0 <= i < d1.len() + d2.len() implies (#[trigger] d[i]).message != msg by {
        if i < d1.len() {
            assert(d[i] == d1[i]);
        } else {
            assert(d[i] == d2[i - d1.len()]);
            if i - d1.len() < ds.len() {
                assert(d2[i - d1.len()] == ds[i - d1.len()]);
            }
        }
    }
    if cond {
        assert(d[(d1.len() + d2.len()) as int] == d3[0]);
        assert(d[(d1.len() + d2.len()) as int].message == msg);
    } else {
        assert(d.len() == d1.len() + d2.len());
    }
}

/// Outside any top-level node without an operator, a node not marked as top-level (with none
/// inside it) finds no operator to report below such a node
pub proof fn lemma_lint_node_quiet(n: SpecNode, range: Range, st: LinterState)
    requires
        st.top_level_no_op is None,
        !n.top_level,
        items_not_top(n.block),
    ensures
        lint_node(n, range, st) matches Some((_, r)) && !r,
    decreases n,
{
    lemma_lint_items_quiet(n.block, inner_state(n, range, st));
}

/// Outside any top-level node without an operator, items with no node marked as top-level find
/// no operator to report below such a node
pub proof fn lemma_lint_items_quiet(v: Seq<SpecNodeItem>, st: LinterState)
    requires
        st.top_level_no_op is None,
        items_not_top(v),
    ensures
        lint_items(v, st) matches Some((_, r)) && !r,
    decreases v,
{
    if v.len() > 0 {
        lemma_lint_items_quiet(v.drop_last(), st);
        assert(items_not_top(v.drop_last()) && item_not_top(v.last()));
        match v.last() {
            SpecNodeItem::Node(n) => {
                assert(!n.inner.top_level && items_not_top(n.inner.block));
                lemma_lint_node_quiet(n.inner, n.range, st);
                assert(lint_item(v.last(), st) == lint_node(n.inner, n.range, st));
            },
            _ => {},
        }
        assert(lint_item(v.last(), st) matches Some((_, r)) && !r);
    }
}

/// Linting a document whose nodes below the top level are not marked as top-level, as the
/// parser gives them, does not panic
pub proof fn lemma_lint_doc_some(v: Seq<SpecDocItem>, this_url: Option<url::Url>)
    requires
        doc_ok(v),
    ensures
        lint_doc(v, LinterState { this_url, top_level_no_op: None }) is Some,
    decreases v.len(),
{
    let st = LinterState { this_url, top_level_no_op: None };
    if v.len() > 0 {
        lemma_lint_doc_some(v.drop_last(), this_url);
        match v.last() {
            SpecDocItem::Node(n) => {
                let st2 = inner_state(n.inner, n.range, st);
                lemma_lint_items_some(n.inner.block, st2);
                if n.inner.operator is Some {
                    lemma_lint_items_quiet(n.inner.block, st2);
                }
            },
            _ => {},
        }
    }
}

/// How a diagnostic is written: its range, then its message
pub open spec fn diagnostic_text(d: SpecDiagnostic) -> Seq<char> {
    crate::parser::range::range_text(d.range) + seq![':', ' '] + d.message
}

impl Diagnostic {
    /// How the diagnostic is written. Its range must not end on a line before it starts.
    pub fn to_string(&self) -> (r: String)
        requires
            self.range.start.line <= self.range.end.line,
        ensures
            r@ == diagnostic_text(self@),
    {
        let mut r = self.range.to_string();
        push_char(&mut r, ':');
        push_char(&mut r, ' ');
        r.append(self.message.as_str());
        assert(r@ =~= diagnostic_text(self@));
        r
    }
}

} // verus!
