//! Documents: the statements of a whole file.
use vstd::prelude::*;
use vstd::string::*;
use super::comment::{Comment, comment_print};
use super::error::{Error, Severity, SpecError, errors_view, join_errors, no_errors, one_error};
use super::input::{Parsed, SParsed, Src, expect_error, span_range, wrap_range};
use super::lex::{
    comment_end, empty_line_end, opt_line_ending, scan_to, skip_multispace, skip_spaces,
    lemma_comment_end, lemma_empty_line_end,
};
use super::node::{
    Node, SpecNode, items_clean, items_not_top, lemma_node_clean, node_nesting, node_print, sp_node, unexpected_error,
};
use super::range::{Position, Range, Ranged};
use crate::text::push_char;
use super::{ASTPrint, ParserState};

verus! {

/// Enum for the different items that can exist in a document
#[derive(Debug, PartialEq, Eq)]
pub enum DocItem {
    /// A node
    Node(Ranged<Node>),
    /// A Comment
    Comment(Ranged<Comment>),
    /// An empty line
    EmptyLine,
    /// An error instead of a doc item
    Error(Ranged<String>),
}

/// A [`DocItem`] taken by its view
pub enum SpecDocItem {
    /// A node
    Node(Ranged<SpecNode>),
    /// A comment
    Comment(Ranged<Seq<char>>),
    /// An empty line
    EmptyLine,
    /// A line that could not be read
    Error(Ranged<Seq<char>>),
}

impl View for DocItem {
    type V = SpecDocItem;

    open spec fn view(&self) -> SpecDocItem {
        match self {
            DocItem::Node(n) => SpecDocItem::Node(n@),
            DocItem::Comment(c) => SpecDocItem::Comment(c@),
            DocItem::EmptyLine => SpecDocItem::EmptyLine,
            DocItem::Error(t) => SpecDocItem::Error(t@),
        }
    }
}

/// Contains all the statements of a file
#[derive(Debug, PartialEq, Eq)]
pub struct Document {
    /// List of all the statements. Can be `Node`s, `Comment`s, or `EmptyLine`s
    pub statements: Vec<DocItem>,
}

impl View for Document {
    type V = Seq<SpecDocItem>;

    open spec fn view(&self) -> Seq<SpecDocItem> {
        self.statements@.map_values(|x: DocItem| x@)
    }
}

/// The outcome of reading one statement of a document
pub enum SpecDocStep {
    /// A statement, where reading goes on, and the errors
    Item(SpecDocItem, int, Seq<SpecError>),
    /// No statement here
    NoItem,
    /// A number does not fit its type
    Panicked,
}

/// One statement at `p`: a comment (with its line ending), an empty line (or spaces up to the end
/// of the text), a top-level node (with its line ending), or the rest of the line as an error
#[verifier::opaque]
pub open spec fn sp_doc_item(s: Seq<char>, p: int, e: int) -> SpecDocStep {
    let a = skip_spaces(s, p, e);
    match comment_end(s, a, e) {
        Some(c) => SpecDocStep::Item(
            SpecDocItem::Comment(Ranged { inner: s.subrange(a, c), range: wrap_range(s, a, c) }),
            opt_line_ending(s, skip_spaces(s, c, e), e),
            seq![],
        ),
        None => match empty_line_end(s, p, e) {
            Some(l) => SpecDocStep::Item(SpecDocItem::EmptyLine, l, seq![]),
            None => if p < a && a == e {
                SpecDocStep::Item(SpecDocItem::EmptyLine, e, seq![])
            } else {
                match sp_node(s, a, e, true) {
                    SParsed::Done(q, n, errs) => SpecDocStep::Item(
                        SpecDocItem::Node(n),
                        opt_line_ending(s, skip_spaces(s, q, e), e),
                        errs,
                    ),
                    SParsed::Panicked => SpecDocStep::Panicked,
                    SParsed::Failed(_) => {
                        let x = scan_to(s, p, e, seq!['\r', '\n']);
                        if x > p {
                            SpecDocStep::Item(
                                SpecDocItem::Error(Ranged { inner: s.subrange(p, x), range: span_range(s, p, x) }),
                                x,
                                seq![unexpected_error(s, p, x)],
                            )
                        } else {
                            SpecDocStep::NoItem
                        }
                    },
                }
            },
        },
    }
}

/// The statements from `p` up to the end of the text. `Failed` when a statement cannot be read
/// before the end.
pub open spec fn sp_doc_items(s: Seq<char>, p: int, e: int) -> SParsed<Seq<SpecDocItem>>
    decreases e - p,
{
    if p >= e {
        SParsed::Done(p, seq![], seq![])
    } else {
        match sp_doc_item(s, p, e) {
            SpecDocStep::Item(x, q, errs) => if p < q <= e {
                match sp_doc_items(s, q, e) {
                    SParsed::Done(end, rest, errs2) => SParsed::Done(end, seq![x] + rest, errs + errs2),
                    other => other,
                }
            } else {
                SParsed::Failed(p)
            },
            SpecDocStep::NoItem => SParsed::Failed(p),
            SpecDocStep::Panicked => SParsed::Panicked,
        }
    }
}

/// A document at offset `i`: an optional byte order mark, whitespace, and statements up to the
/// end of the text
pub open spec fn sp_document(s: Seq<char>, i: int, e: int) -> SParsed<Ranged<Seq<SpecDocItem>>> {
    let b = if i < e && s[i] == '\u{feff}' {
        i + 1
    } else {
        i
    };
    let m = skip_multispace(s, b, e);
    match sp_doc_items(s, m, e) {
        SParsed::Done(end, items, errs) => SParsed::Done(end, Ranged { inner: items, range: wrap_range(s, i, end) }, errs),
        SParsed::Failed(f) => SParsed::Failed(f),
        SParsed::Panicked => SParsed::Panicked,
    }
}

/// The whole text as a document: when it cannot be read as one, the document is empty and
/// "expected EOF" is reported at the start of the text. `None` when a number does not fit its type.
pub open spec fn sp_source_file(s: Seq<char>) -> Option<(Seq<SpecDocItem>, Seq<SpecError>)> {
    match sp_document(s, 0, s.len() as int) {
        SParsed::Done(_, d, errs) => Some((d.inner, errs)),
        SParsed::Failed(_) => Some((seq![], seq![expect_error(s, 0, s.len() as int, "expected EOF"@)])),
        SParsed::Panicked => None,
    }
}

/// The statement is no line that could not be read, and its node holds none
pub open spec fn doc_item_clean(x: SpecDocItem) -> bool {
    match x {
        SpecDocItem::Node(n) => items_clean(n.inner.block),
        SpecDocItem::Error(_) => false,
        _ => true,
    }
}

/// No statement is a line that could not be read, and no node holds one at any depth
pub open spec fn doc_clean(v: Seq<SpecDocItem>) -> bool {
    forall|k: int| 0 <= k < v.len() ==> #[trigger] doc_item_clean(v[k])
}

/// Statements read without errors hold no line that could not be read
proof fn lemma_doc_items_clean(s: Seq<char>, p: int, e: int)
    ensures
        sp_doc_items(s, p, e) matches SParsed::Done(_, items, errs) ==> (errs.len() == 0 ==> doc_clean(items)),
    decreases e - p,
{
    if p < e {
        reveal(sp_doc_item);
        let a = skip_spaces(s, p, e);
        lemma_node_clean(s, a, e, true);
        match sp_doc_item(s, p, e) {
            SpecDocStep::Item(x, q, errs) => if p < q <= e {
                lemma_doc_items_clean(s, q, e);
                if let SParsed::Done(end, rest, errs2) = sp_doc_items(s, q, e) {
                    assert((errs + errs2).len() == errs.len() + errs2.len());
                    if errs.len() == 0 && errs2.len() == 0 {
                        assert(doc_item_clean(x));
                        let v = seq![x] + rest;
                        assert forall|k: int| 0 <= k < v.len() implies #[trigger] doc_item_clean(v[k]) by {
                            if k > 0 {
                                assert(v[k] == rest[k - 1]);
                            }
                        }
                    }
                }
            },
            _ => {},
        }
    }
}

/// When reading a text reports no error, the document holds no line that could not be read:
/// neither among its statements nor inside its nodes, at any depth
pub proof fn lemma_no_errors_no_error_items(s: Seq<char>)
    ensures
        sp_source_file(s) matches Some((doc, errs)) ==> (errs.len() == 0 ==> doc_clean(doc)),
{
    let b = if 0 < s.len() && s[0] == '\u{feff}' {
        1int
    } else {
        0int
    };
    let m = skip_multispace(s, b, s.len() as int);
    lemma_doc_items_clean(s, m, s.len() as int);
}

/// How a statement is printed at nesting depth `depth`
pub open spec fn doc_item_print(x: SpecDocItem, depth: nat, ind: Seq<char>, le: Seq<char>, sc: Option<bool>) -> Seq<char> {
    match x {
        SpecDocItem::Node(n) => node_print(n.inner, depth, ind, le, sc),
        SpecDocItem::Comment(c) => comment_print(c.inner, depth, ind, le),
        SpecDocItem::EmptyLine => le,
        SpecDocItem::Error(t) => t.inner,
    }
}

/// The statements printed one after the other
pub open spec fn doc_print(v: Seq<SpecDocItem>, depth: nat, ind: Seq<char>, le: Seq<char>, sc: Option<bool>) -> Seq<char>
    decreases v.len(),
{
    if v.len() == 0 {
        seq![]
    } else {
        doc_print(v.drop_last(), depth, ind, le, sc) + doc_item_print(v.last(), depth, ind, le, sc)
    }
}

/// Nodes inside the statement's nodes, at any depth, are not marked as top-level
pub open spec fn doc_item_ok(x: SpecDocItem) -> bool {
    match x {
        SpecDocItem::Node(n) => items_not_top(n.inner.block),
        _ => true,
    }
}

/// Nodes inside the document's top-level nodes, at any depth, are not marked as top-level
pub open spec fn doc_ok(v: Seq<SpecDocItem>) -> bool
    decreases v.len(),
{
    if v.len() == 0 {
        true
    } else {
        doc_ok(v.drop_last()) && doc_item_ok(v.last())
    }
}

/// How deep blocks nest in a statement
pub open spec fn doc_item_nesting(x: SpecDocItem) -> nat {
    match x {
        SpecDocItem::Node(n) => node_nesting(n.inner),
        _ => 0,
    }
}

/// How deep blocks nest in a document
pub open spec fn doc_nesting(v: Seq<SpecDocItem>) -> nat
    decreases v.len(),
{
    if v.len() == 0 {
        0
    } else {
        let a = doc_nesting(v.drop_last());
        let b = doc_item_nesting(v.last());
        if a < b {
            b
        } else {
            a
        }
    }
}

/// A document nests at least as deep as each of its statements
pub proof fn lemma_doc_nesting(v: Seq<SpecDocItem>, k: int)
    requires
        0 <= k < v.len(),
    ensures
        doc_item_nesting(v[k]) <= doc_nesting(v),
    decreases v.len(),
{
    if k < v.len() - 1 {
        lemma_doc_nesting(v.drop_last(), k);
    }
}

proof fn lemma_doc_items_step(s: Seq<char>, p: int, e: int, x: SpecDocItem, q: int, errs: Seq<SpecError>)
    requires
        p < e,
        sp_doc_item(s, p, e) == SpecDocStep::Item(x, q, errs),
        p < q <= e,
    ensures
        sp_doc_items(s, p, e) == (match sp_doc_items(s, q, e) {
            SParsed::Done(end, rest, errs2) => SParsed::Done(end, seq![x] + rest, errs + errs2),
            other => other,
        }),
{
}

proof fn lemma_doc_nesting_push(v: Seq<SpecDocItem>, x: SpecDocItem)
    ensures
        doc_nesting(v.push(x)) == if doc_nesting(v) < doc_item_nesting(x) {
            doc_item_nesting(x)
        } else {
            doc_nesting(v)
        },
{
    assert(v.push(x).drop_last() =~= v);
}

proof fn lemma_items_acc(
    ov: Seq<SpecDocItem>,
    xv: SpecDocItem,
    oe: Seq<SpecError>,
    e1: Seq<SpecError>,
    r: SParsed<Seq<SpecDocItem>>,
)
    ensures
        (match (match r {
            SParsed::Done(end, rest, errs2) => SParsed::Done(end, seq![xv] + rest, e1 + errs2),
            other => other,
        }) {
            SParsed::Done(end, rest, errs2) => SParsed::Done(end, ov + rest, oe + errs2),
            other => other,
        }) == (match r {
            SParsed::Done(end, rest, errs2) => SParsed::Done(end, ov.push(xv) + rest, (oe + e1) + errs2),
            other => other,
        }),
{
    match r {
        SParsed::Done(end, rest, errs2) => {
            assert(ov + (seq![xv] + rest) =~= ov.push(xv) + rest);
            assert(oe + (e1 + errs2) =~= (oe + e1) + errs2);
        },
        _ => {},
    }
}

/// The outcome of reading one statement
pub enum DocStep {
    /// A statement, where reading goes on, and the errors
    Item(DocItem, usize, Vec<Error>),
    /// No statement here
    NoItem,
    /// A number does not fit its type
    Panicked,
}

impl View for DocStep {
    type V = SpecDocStep;

    open spec fn view(&self) -> SpecDocStep {
        match self {
            DocStep::Item(x, q, errs) => SpecDocStep::Item(x@, *q as int, errors_view(errs@)),
            DocStep::NoItem => SpecDocStep::NoItem,
            DocStep::Panicked => SpecDocStep::Panicked,
        }
    }
}

/// Reads one statement at `p`
#[verifier::spinoff_prover]
#[verifier::rlimit(40)]
fn parse_doc_item(src: &Src, p: usize, e: usize) -> (r: DocStep)
    requires
        src.wf(),
        p <= e <= src@.len(),
    ensures
        r@ == sp_doc_item(src@, p as int, e as int),
        r matches DocStep::Item(_, q, _) ==> p < q <= e,
        r matches DocStep::Item(x, q, _) ==> doc_item_nesting(x@) <= q - p,
        r matches DocStep::Item(x, _, _) ==> doc_item_ok(x@),
{
    let a = src.skip_spaces(p, e);
    proof {
        reveal(sp_doc_item);
        lemma_comment_end(src@, a as int, e as int);
        lemma_empty_line_end(src@, p as int, e as int);
    }
    match src.comment_end(a, e) {
        Some(c) => {
            let item = DocItem::Comment(Ranged { inner: Comment { text: src.text(a, c) }, range: src.wrap(a, c) });
            let c1 = src.skip_spaces(c, e);
            return DocStep::Item(item, src.opt_line_ending(c1, e), no_errors());
        },
        None => {},
    }
    match src.empty_line_end(p, e) {
        Some(l) => {
            return DocStep::Item(DocItem::EmptyLine, l, no_errors());
        },
        None => {},
    }
    if p < a && a == e {
        return DocStep::Item(DocItem::EmptyLine, e, no_errors());
    }
    match Node::parse(src, a, e, ParserState::default()) {
        Parsed::Done(q, n, errs) => {
            let q1 = src.skip_spaces(q, e);
            DocStep::Item(DocItem::Node(n), src.opt_line_ending(q1, e), errs)
        },
        Parsed::Panicked => DocStep::Panicked,
        Parsed::Failed(_) => {
            let x = src.scan_to_eol(p, e);
            if x > p {
                let text = src.text(p, x);
                let mut message = String::from_str("unexpected `");
                message.append(text.as_str());
                push_char(&mut message, '`');
                assert(message@ =~= "unexpected `"@ + src@.subrange(p as int, x as int) + seq!['`']);
                let err = Error { severity: Severity::Error, range: src.span(p, x), source: src.text(p, x), message, context: None };
                DocStep::Item(DocItem::Error(Ranged { inner: text, range: src.span(p, x) }), x, one_error(err))
            } else {
                DocStep::NoItem
            }
        },
    }
}

impl Document {
    /// Parses a document at offset `i`, up to the end of the text
    #[verifier::spinoff_prover]
    #[verifier::rlimit(80)]
    pub fn parse(src: &Src, i: usize) -> (r: Parsed<Ranged<Document>>)
        requires
            src.wf(),
            i <= src@.len(),
        ensures
            r@ == sp_document(src@, i as int, src@.len() as int),
            r matches Parsed::Done(_, d, _) ==> doc_nesting(d.inner@) <= src@.len(),
            r matches Parsed::Done(_, d, _) ==> doc_ok(d.inner@),
    {
        let e = src.len();
        let b = if i < e && src.at(i) == '\u{feff}' {
            i + 1
        } else {
            i
        };
        let m = src.skip_multispace(b, e);
        let mut items: Vec<DocItem> = Vec::new();
        let mut errs = no_errors();
        let mut p = m;
        assert(items@.map_values(|x: DocItem| x@) =~= Seq::<SpecDocItem>::empty());
        loop
            invariant
                src.wf(),
                e == src@.len(),
                i <= m <= p <= e,
                sp_document(src@, i as int, e as int) == (match sp_doc_items(src@, m as int, e as int) {
                    SParsed::Done(end, its, er) => SParsed::Done(end, Ranged { inner: its, range: wrap_range(src@, i as int, end) }, er),
                    SParsed::Failed(f) => SParsed::Failed(f),
                    SParsed::Panicked => SParsed::Panicked,
                }),
                doc_nesting(items@.map_values(|x: DocItem| x@)) <= p,
                doc_ok(items@.map_values(|x: DocItem| x@)),
                sp_doc_items(src@, m as int, e as int) == (match sp_doc_items(src@, p as int, e as int) {
                    SParsed::Done(end, rest, errs2) => SParsed::Done(
                        end,
                        items@.map_values(|x: DocItem| x@) + rest,
                        errors_view(errs@) + errs2,
                    ),
                    other => other,
                }),
            decreases e - p,
        {
            if p >= e {
                assert(items@.map_values(|x: DocItem| x@) + seq![] =~= items@.map_values(|x: DocItem| x@));
                assert(errors_view(errs@) + seq![] =~= errors_view(errs@));
                let doc = Document { statements: items };
                return Parsed::Done(p, Ranged { inner: doc, range: src.wrap(i, p) }, errs);
            }
            match parse_doc_item(src, p, e) {
                DocStep::Item(x, q, errs1) => {
                    let ghost old_items = items@;
                    let ghost old_errs = errs@;
                    let ghost xv = x@;
                    items.push(x);
                    errs = join_errors(errs, errs1);
                    proof {
                        let ov = old_items.map_values(|x: DocItem| x@);
                        let nv = items@.map_values(|x: DocItem| x@);
                        assert(nv =~= ov.push(xv));
                        assert(nv.drop_last() =~= ov);
                        lemma_doc_nesting_push(ov, xv);
                        lemma_doc_items_step(src@, p as int, e as int, xv, q as int, errors_view(errs1@));
                        lemma_items_acc(ov, xv, errors_view(old_errs), errors_view(errs1@), sp_doc_items(src@, q as int, e as int));
                    }
                    p = q;
                },
                DocStep::NoItem => {
                    assert(sp_doc_items(src@, p as int, e as int) == SParsed::<Seq<SpecDocItem>>::Failed(p as int));
                    return Parsed::Failed(p);
                },
                DocStep::Panicked => {
                    assert(sp_doc_items(src@, p as int, e as int) == SParsed::<Seq<SpecDocItem>>::Panicked);
                    return Parsed::Panicked;
                },
            }
        }
    }
}

/// Parses the whole text as a document; `None` when a number in it does not fit its type
pub fn source_file(src: &Src) -> (r: Option<(Document, Vec<Error>)>)
    requires
        src.wf(),
    ensures
        sp_source_file(src@) == (match r {
            Some(x) => Some((x.0@, errors_view(x.1@))),
            None => None,
        }),
        r matches Some(x) ==> doc_nesting(x.0@) <= src@.len(),
        r matches Some(x) ==> doc_ok(x.0@),
{
    match Document::parse(src, 0) {
        Parsed::Done(_, d, errs) => Some((d.inner, errs)),
        Parsed::Failed(_) => {
            let doc = Document { statements: Vec::new() };
            assert(doc@ =~= Seq::<SpecDocItem>::empty());
            assert(doc_ok(doc@));
            Some((doc, one_error(src.expect_error(0, src.len(), "expected EOF"))))
        },
        Parsed::Panicked => None,
    }
}

/// A statement is printed at nesting depth `depth`
impl ASTPrint for DocItem {
    open spec fn print_nesting(&self) -> nat {
        doc_item_nesting(self@)
    }

    open spec fn printed(&self, depth: nat, indentation: Seq<char>, line_ending: Seq<char>, should_collapse: Option<bool>) -> Seq<char> {
        doc_item_print(self@, depth, indentation, line_ending, should_collapse)
    }

    fn ast_print(&self, depth: usize, indentation: &str, line_ending: &str, should_collapse: Option<bool>) -> (r: String) {
        match self {
            DocItem::Node(n) => n.inner.ast_print(depth, indentation, line_ending, should_collapse),
            DocItem::Comment(c) => c.inner.ast_print(depth, indentation, line_ending, should_collapse),
            DocItem::EmptyLine => String::from_str(line_ending),
            DocItem::Error(t) => t.inner.clone(),
        }
    }
}

/// A document is printed as its statements one after the other, at nesting depth `depth`
impl ASTPrint for Document {
    open spec fn print_nesting(&self) -> nat {
        doc_nesting(self@)
    }

    open spec fn printed(&self, depth: nat, indentation: Seq<char>, line_ending: Seq<char>, should_collapse: Option<bool>) -> Seq<char> {
        doc_print(self@, depth, indentation, line_ending, should_collapse)
    }

    fn ast_print(&self, depth: usize, indentation: &str, line_ending: &str, should_collapse: Option<bool>) -> (r: String) {
        let ghost v = self@;
        let mut output = String::new();
        let mut k: usize = 0;
        while k < self.statements.len()
            invariant
                k <= self.statements@.len(),
                v == self@,
                depth + doc_nesting(v) <= usize::MAX,
                output@ == doc_print(v.take(k as int), depth as nat, indentation@, line_ending@, should_collapse),
            decreases self.statements.len() - k,
        {
            proof {
                lemma_doc_nesting(v, k as int);
            }
            let t = self.statements[k].ast_print(depth, indentation, line_ending, should_collapse);
            output.append(t.as_str());
            assert(v.take(k + 1).drop_last() =~= v.take(k as int));
            k = k + 1;
        }
        assert(v.take(k as int) =~= v);
        output
    }
}

} // verus!
