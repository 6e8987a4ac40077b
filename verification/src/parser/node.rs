//! Nodes: an identifier line and a block of items between braces, and the items of a block.
use vstd::prelude::*;
use vstd::string::*;
use super::comment::{Comment, comment_print, sp_comment};
use super::error::{Error, Severity, SpecError, errors_view, join_errors, no_errors, one_error};
use super::has::{HasBlock, SpecHasPredicate, has_block_text, sp_has_block};
use super::indices::{Index, index_text, sp_index};
use super::input::{Parsed, SParsed, Src, expect_error, span_range, wrap_range};
use super::key_val::{KeyVal, SpecKeyVal, key_val_left_side, key_val_print, sp_key_val};
use super::assignment_operator::assignment_operator_text;
use super::lex::{
    comment_end, empty_line_end, is_id_char, is_multispace, opt_line_ending, run_of, scan_to,
    skip_multispace, skip_spaces, lemma_comment_end, lemma_empty_line_end, lemma_scan_to,
    lemma_skip_multispace, lemma_skip_spaces,
};
use super::needs::{NeedsBlock, SpecModClause, needs_text, sp_needs};
use super::operator::{Operator, operator_text, sp_operator};
use super::pass::{Pass, SpecPass, pass_text, sp_pass};
use super::path::{Path, SpecPath, path_text, sp_path};
use super::range::{Range, Ranged, opt_view};
use crate::text::{push_char, repeat_str, repeat_text};
use super::{ASTPrint, ParserState};

verus! {

/// A node in the config file. Both top level node and internal node
#[derive(Debug, PartialEq, Eq)]
pub struct Node {
    /// Whether the node stands at the top level of the document
    pub top_level: bool,
    /// Optional path to node, only allowed on internal nodes
    pub path: Option<Ranged<Path>>,
    /// Optional operator
    pub operator: Option<Ranged<Operator>>,
    /// Identifier of the node
    pub identifier: Ranged<String>,
    /// Optional name of the node. Same as `:HAS[name[<name>]]`
    pub name: Option<Ranged<Vec<String>>>,
    /// Optional HAS block
    pub has: Option<Ranged<HasBlock>>,
    /// Optional NEEDS block
    pub needs: Option<Ranged<NeedsBlock>>,
    /// Pass for the patch to run
    pub pass: Option<Ranged<Pass>>,
    /// Optional index of the node to match
    pub index: Option<Ranged<Index>>,
    /// Optional comment after the identifier
    pub id_comment: Option<Ranged<Comment>>,
    /// optional comments between identifier line and opening bracket
    pub comments_after_newline: Vec<Ranged<Comment>>,
    /// Items inside the node
    pub block: Vec<NodeItem>,
    /// Optional trailing comment after the closing bracket
    pub trailing_comment: Option<Ranged<Comment>>,
}

/// Enum for the different items that can exist in a document/node
#[derive(Debug, PartialEq, Eq)]
pub enum NodeItem {
    /// A node
    Node(Ranged<Node>),
    /// A Comment
    Comment(Ranged<Comment>),
    /// An assignment
    KeyVal(Ranged<KeyVal>),
    /// An empty line
    EmptyLine,
    /// An error instead of the node item
    Error(Ranged<String>),
}

/// A [`Node`] with its parts taken by their views
pub struct SpecNode {
    /// Top-level node
    pub top_level: bool,
    /// Optional path
    pub path: Option<Ranged<SpecPath>>,
    /// Optional operator
    pub operator: Option<Ranged<Operator>>,
    /// The identifier
    pub identifier: Ranged<Seq<char>>,
    /// Optional names
    pub name: Option<Ranged<Seq<Seq<char>>>>,
    /// Optional HAS block
    pub has: Option<Ranged<Seq<Ranged<SpecHasPredicate>>>>,
    /// Optional NEEDS block
    pub needs: Option<Ranged<Seq<Ranged<Seq<Ranged<SpecModClause>>>>>>,
    /// Optional pass
    pub pass: Option<Ranged<SpecPass>>,
    /// Optional index
    pub index: Option<Ranged<Index>>,
    /// Optional comment after the identifier
    pub id_comment: Option<Ranged<Seq<char>>>,
    /// Comments between the identifier line and the block
    pub comments_after_newline: Seq<Ranged<Seq<char>>>,
    /// The items of the block
    pub block: Seq<SpecNodeItem>,
    /// Optional trailing comment
    pub trailing_comment: Option<Ranged<Seq<char>>>,
}

/// A [`NodeItem`] taken by its view
pub enum SpecNodeItem {
    /// A node
    Node(Ranged<SpecNode>),
    /// A comment
    Comment(Ranged<Seq<char>>),
    /// An assignment
    KeyVal(Ranged<SpecKeyVal>),
    /// An empty line
    EmptyLine,
    /// A line that could not be read
    Error(Ranged<Seq<char>>),
}

/// The texts of a sequence of strings
pub open spec fn strings_view(v: Seq<String>) -> Seq<Seq<char>> {
    v.map_values(|x: String| x@)
}

/// The views of a sequence of comments
pub open spec fn comments_view(v: Seq<Ranged<Comment>>) -> Seq<Ranged<Seq<char>>> {
    v.map_values(|x: Ranged<Comment>| x@)
}

/// The view of a node
pub open spec fn node_view(n: Node) -> SpecNode
    decreases n,
{
    SpecNode {
        top_level: n.top_level,
        path: opt_view(n.path),
        operator: n.operator,
        identifier: n.identifier@,
        name: match n.name {
            Some(r) => Some(Ranged { inner: strings_view(r.inner@), range: r.range }),
            None => None,
        },
        has: opt_view(n.has),
        needs: opt_view(n.needs),
        pass: opt_view(n.pass),
        index: n.index,
        id_comment: opt_view(n.id_comment),
        comments_after_newline: comments_view(n.comments_after_newline@),
        block: node_items_view(n.block@),
        trailing_comment: opt_view(n.trailing_comment),
    }
}

/// The view of an item of a block
pub open spec fn node_item_view(x: NodeItem) -> SpecNodeItem
    decreases x,
{
    match x {
        NodeItem::Node(n) => SpecNodeItem::Node(Ranged { inner: node_view(n.inner), range: n.range }),
        NodeItem::Comment(c) => SpecNodeItem::Comment(c@),
        NodeItem::KeyVal(kv) => SpecNodeItem::KeyVal(kv@),
        NodeItem::EmptyLine => SpecNodeItem::EmptyLine,
        NodeItem::Error(t) => SpecNodeItem::Error(t@),
    }
}

/// The views of the items of a block
pub open spec fn node_items_view(v: Seq<NodeItem>) -> Seq<SpecNodeItem>
    decreases v,
{
    if v.len() == 0 {
        seq![]
    } else {
        node_items_view(v.drop_last()).push(node_item_view(v.last()))
    }
}

impl View for Node {
    type V = SpecNode;

    open spec fn view(&self) -> SpecNode {
        node_view(*self)
    }
}

impl View for NodeItem {
    type V = SpecNodeItem;

    open spec fn view(&self) -> SpecNodeItem {
        node_item_view(*self)
    }
}

/// The views of the items are the items' views, one by one
pub proof fn lemma_node_items_view(v: Seq<NodeItem>)
    ensures
        node_items_view(v) == v.map_values(|x: NodeItem| x@),
    decreases v.len(),
{
    if v.len() > 0 {
        lemma_node_items_view(v.drop_last());
        assert(v.map_values(|x: NodeItem| x@) =~= v.drop_last().map_values(|x: NodeItem| x@).push(
            v.last()@,
        ));
    } else {
        assert(v.map_values(|x: NodeItem| x@) =~= Seq::<SpecNodeItem>::empty());
    }
}

/// Where the text that could be a node's identifier stops: a comment, or whitespace followed by a
/// brace
pub open spec fn ident_stop_at(s: Seq<char>, p: int, e: int) -> bool {
    comment_end(s, p, e) is Some || ({
        let t = skip_multispace(s, p, e);
        0 <= t < e && (s[t] == '{' || s[t] == '}')
    })
}

/// The first offset at or after `p` where an identifier stops, if there is one before `e`
pub open spec fn ident_stop(s: Seq<char>, p: int, e: int) -> Option<int>
    decreases e - p,
{
    if ident_stop_at(s, p, e) {
        Some(p)
    } else if p < e {
        ident_stop(s, p + 1, e)
    } else {
        None
    }
}

/// End of the comments and whitespace that follow an identifier from `p` on
pub open spec fn ident_tail(s: Seq<char>, p: int, e: int) -> int
    decreases e - p,
{
    match comment_end(s, p, e) {
        Some(c) => if p < c <= e {
            ident_tail(s, c, e)
        } else {
            p
        },
        None => if 0 <= p < e && is_multispace(s[p]) {
            let m = skip_multispace(s, p, e);
            if p < m <= e {
                ident_tail(s, m, e)
            } else {
                p
            }
        } else {
            p
        },
    }
}

/// A HAS block, a pass, a NEEDS block or an index after a node's identifier
pub enum SpecCombo {
    /// A HAS block
    Has(Ranged<Seq<Ranged<SpecHasPredicate>>>),
    /// A pass
    Pass(Ranged<SpecPass>),
    /// A NEEDS block
    Needs(Ranged<Seq<Ranged<Seq<Ranged<SpecModClause>>>>>),
    /// An index
    Index(Ranged<Index>),
}

/// One HAS block, pass, NEEDS block or index at `q`, tried in that order
pub open spec fn sp_combo(s: Seq<char>, q: int, d: int) -> SParsed<SpecCombo> {
    match sp_has_block(s, q, d) {
        SParsed::Done(x, h, errs) => SParsed::Done(x, SpecCombo::Has(h), errs),
        _ => match sp_pass(s, q, d) {
            SParsed::Done(x, p, errs) => SParsed::Done(x, SpecCombo::Pass(p), errs),
            _ => match sp_needs(s, q, d) {
                SParsed::Done(x, n, errs) => SParsed::Done(x, SpecCombo::Needs(n), errs),
                _ => match sp_index(s, q, d) {
                    SParsed::Done(x, ix, errs) => SParsed::Done(x, SpecCombo::Index(ix), errs),
                    SParsed::Failed(f) => SParsed::Failed(f),
                    SParsed::Panicked => SParsed::Panicked,
                },
            },
        },
    }
}

/// As many HAS blocks, passes, NEEDS blocks and indices as follow from `q` on; `None` when a
/// number in an index does not fit its type
pub open spec fn sp_combos(s: Seq<char>, q: int, d: int) -> Option<(Seq<SpecCombo>, int, Seq<SpecError>)>
    decreases d - q,
{
    match sp_combo(s, q, d) {
        SParsed::Done(x, c, errs) => if q < x <= d {
            match sp_combos(s, x, d) {
                Some((rest, end, errs2)) => Some((seq![c] + rest, end, errs + errs2)),
                None => None,
            }
        } else {
            Some((seq![], q, seq![]))
        },
        SParsed::Failed(_) => Some((seq![], q, seq![])),
        SParsed::Panicked => None,
    }
}

/// The names after the first one, each after `|`, from `x` on
pub open spec fn sp_names_rest(s: Seq<char>, x: int, d: int) -> (Seq<Seq<char>>, int)
    decreases d - x,
{
    if 0 <= x < d && s[x] == '|' {
        let y = scan_to(s, x + 1, d, seq!['|', ']']);
        if x + 1 < y <= d {
            let (rest, end) = sp_names_rest(s, y, d);
            (seq![s.subrange(x + 1, y)] + rest, end)
        } else {
            (seq![], x)
        }
    } else {
        (seq![], x)
    }
}

/// The message of the context of a missing `]` after a node's names
pub open spec fn bracket_context() -> Seq<char> {
    "Expected due to `[` found here"@
}

/// The optional names of a node at `k`: `[`, names separated by `|`, and `]`; a missing `]`
/// is reported, with the range of the `[` as its context
pub open spec fn sp_node_name(s: Seq<char>, k: int, d: int) -> (Option<Ranged<Seq<Seq<char>>>>, int, Seq<SpecError>) {
    if 0 <= k < d && s[k] == '[' {
        let x = scan_to(s, k + 1, d, seq!['|', ']']);
        let (names, q) = if x > k + 1 {
            let (rest, q) = sp_names_rest(s, x, d);
            (seq![s.subrange(k + 1, x)] + rest, q)
        } else {
            (seq![], k + 1)
        };
        let (end, errs) = if 0 <= q < d && s[q] == ']' {
            (q + 1, seq![])
        } else {
            (
                q,
                seq![
                    SpecError {
                        context: Some(Ranged { inner: bracket_context(), range: wrap_range(s, k, k + 1) }),
                        ..expect_error(s, q, d, "Expected closing `]`"@)
                    },
                ],
            )
        };
        (Some(Ranged { inner: names, range: wrap_range(s, k, end) }), end, errs)
    } else {
        (None, k, seq![])
    }
}

/// Comments after the identifier's line, each after an optional line ending, from `q` on
pub open spec fn sp_comments_after(s: Seq<char>, q: int, d: int) -> (Seq<Ranged<Seq<char>>>, int)
    decreases d - q,
{
    let l = opt_line_ending(s, q, d);
    match sp_comment(s, l, d) {
        SParsed::Done(c, cm, _) => if q < c <= d {
            let (rest, end) = sp_comments_after(s, c, d);
            (seq![cm] + rest, end)
        } else {
            (seq![], q)
        },
        _ => (seq![], q),
    }
}

/// The HAS blocks among the combos
pub open spec fn combo_has(c: Seq<SpecCombo>) -> Seq<Ranged<Seq<Ranged<SpecHasPredicate>>>>
    decreases c.len(),
{
    if c.len() == 0 {
        seq![]
    } else {
        combo_has(c.drop_last()) + match c.last() {
            SpecCombo::Has(h) => seq![h],
            _ => seq![],
        }
    }
}

/// The passes among the combos
pub open spec fn combo_pass(c: Seq<SpecCombo>) -> Seq<Ranged<SpecPass>>
    decreases c.len(),
{
    if c.len() == 0 {
        seq![]
    } else {
        combo_pass(c.drop_last()) + match c.last() {
            SpecCombo::Pass(p) => seq![p],
            _ => seq![],
        }
    }
}

/// The NEEDS blocks among the combos
pub open spec fn combo_needs(c: Seq<SpecCombo>) -> Seq<Ranged<Seq<Ranged<Seq<Ranged<SpecModClause>>>>>>
    decreases c.len(),
{
    if c.len() == 0 {
        seq![]
    } else {
        combo_needs(c.drop_last()) + match c.last() {
            SpecCombo::Needs(n) => seq![n],
            _ => seq![],
        }
    }
}

/// The indices among the combos
pub open spec fn combo_index(c: Seq<SpecCombo>) -> Seq<Ranged<Index>>
    decreases c.len(),
{
    if c.len() == 0 {
        seq![]
    } else {
        combo_index(c.drop_last()) + match c.last() {
            SpecCombo::Index(x) => seq![x],
            _ => seq![],
        }
    }
}

/// The error reported for a HAS block, NEEDS block or pass beyond the first
pub open spec fn extra_error(range: Range, source: Seq<char>, message: Seq<char>) -> SpecError {
    SpecError { severity: Severity::Error, range, source, message, context: None }
}

/// The errors for the HAS blocks beyond the first
pub open spec fn extra_has_errors(h: Seq<Ranged<Seq<Ranged<SpecHasPredicate>>>>) -> Seq<SpecError> {
    if h.len() == 0 {
        seq![]
    } else {
        h.skip(1).map_values(|x: Ranged<Seq<Ranged<SpecHasPredicate>>>| extra_error(x.range, has_block_text(x.inner), "Got extra HAS block"@))
    }
}

/// The errors for the NEEDS blocks beyond the first
pub open spec fn extra_needs_errors(n: Seq<Ranged<Seq<Ranged<Seq<Ranged<SpecModClause>>>>>>) -> Seq<SpecError> {
    if n.len() == 0 {
        seq![]
    } else {
        n.skip(1).map_values(|x: Ranged<Seq<Ranged<Seq<Ranged<SpecModClause>>>>>| extra_error(x.range, needs_text(x.inner), "Got extra NEEDS block"@))
    }
}

/// The errors for the passes beyond the first
pub open spec fn extra_pass_errors(p: Seq<Ranged<SpecPass>>) -> Seq<SpecError> {
    if p.len() == 0 {
        seq![]
    } else {
        p.skip(1).map_values(|x: Ranged<SpecPass>| extra_error(x.range, pass_text(x.inner), "Got extra PASS block"@))
    }
}

/// The first element of a sequence, if any
pub open spec fn first_of<T>(s: Seq<T>) -> Option<T> {
    if s.len() == 0 {
        None
    } else {
        Some(s[0])
    }
}

/// The parts of a node's identifier line
pub struct SpecIdent {
    /// Optional path
    pub path: Option<Ranged<SpecPath>>,
    /// Optional operator
    pub operator: Option<Ranged<Operator>>,
    /// The identifier
    pub identifier: Ranged<Seq<char>>,
    /// Optional names
    pub name: Option<Ranged<Seq<Seq<char>>>>,
    /// The first HAS block
    pub has: Option<Ranged<Seq<Ranged<SpecHasPredicate>>>>,
    /// The first NEEDS block
    pub needs: Option<Ranged<Seq<Ranged<Seq<Ranged<SpecModClause>>>>>>,
    /// The first pass
    pub pass: Option<Ranged<SpecPass>>,
    /// The first index
    pub index: Option<Ranged<Index>>,
    /// Optional comment after the identifier
    pub id_comment: Option<Ranged<Seq<char>>>,
    /// Comments on the lines after
    pub comments_after_newline: Seq<Ranged<Seq<char>>>,
}

/// The identifier line between offsets `i` and `d`: optional whitespace, an optional `#` and
/// path, an optional operator, the identifier, optional names, HAS blocks, passes, NEEDS blocks
/// and indices in any order, an optional comment, comments on the lines after, and optional
/// whitespace, which must take up the whole of it. Of the HAS blocks, NEEDS blocks and passes the
/// first is kept, and any more are reported; of the indices the first is kept.
pub open spec fn sp_ident_parts(s: Seq<char>, i: int, d: int) -> SParsed<SpecIdent> {
    let (path, operator, p2, errs1) = sp_ident_prefix(s, i, d);
    let k = run_of(s, p2, d, |c: char| is_id_char(c));
    if k == p2 {
        SParsed::Failed(p2)
    } else {
        let (name, n, errs2) = sp_node_name(s, k, d);
        match sp_ident_rest(s, n, d) {
            SParsed::Panicked => SParsed::Panicked,
            SParsed::Failed(z) => SParsed::Failed(z),
            SParsed::Done(z, rest, errs3) => {
                let combos = rest.combos;
                let has = combo_has(combos);
                let needs = combo_needs(combos);
                let pass = combo_pass(combos);
                SParsed::Done(
                    z,
                    SpecIdent {
                        path,
                        operator,
                        identifier: Ranged { inner: s.subrange(p2, k), range: wrap_range(s, p2, k) },
                        name,
                        has: first_of(has),
                        needs: first_of(needs),
                        pass: first_of(pass),
                        index: first_of(combo_index(combos)),
                        id_comment: rest.id_comment,
                        comments_after_newline: rest.after,
                    },
                    errs1 + errs2 + errs3 + extra_has_errors(has) + extra_needs_errors(needs)
                        + extra_pass_errors(pass),
                )
            },
        }
    }
}

/// What may come before a node's identifier: whitespace, an optional `#` and path, and an
/// optional operator. Gives them, where the identifier starts, and the errors.
pub open spec fn sp_ident_prefix(s: Seq<char>, i: int, d: int) -> (Option<Ranged<SpecPath>>, Option<Ranged<Operator>>, int, Seq<SpecError>) {
    let p0 = skip_multispace(s, i, d);
    let (path, p1, errs1) = if p0 < d && s[p0] == '#' {
        let (pth, q, errs) = sp_path(s, p0 + 1, d);
        (Some(pth), q, errs)
    } else {
        (None, p0, seq![])
    };
    let (operator, p2) = match sp_operator(s, p1, d) {
        SParsed::Done(q, o, _) => (Some(o), q),
        _ => (None, p1),
    };
    (path, operator, p2, errs1)
}

/// What follows a node's names on its identifier line
pub struct SpecIdentRest {
    /// HAS blocks, passes, NEEDS blocks and indices, in the order written
    pub combos: Seq<SpecCombo>,
    /// Optional comment after the identifier
    pub id_comment: Option<Ranged<Seq<char>>>,
    /// Comments on the lines after
    pub after: Seq<Ranged<Seq<char>>>,
}

/// What follows a node's names from `n` on, up to `d`, which it must reach
pub open spec fn sp_ident_rest(s: Seq<char>, n: int, d: int) -> SParsed<SpecIdentRest> {
    match sp_combos(s, n, d) {
        None => SParsed::Panicked,
        Some((combos, r, errs3)) => {
            let (id_comment, c) = match sp_comment(s, r, d) {
                SParsed::Done(q, cm, _) => (Some(cm), q),
                _ => (None, r),
            };
            let (after, a) = sp_comments_after(s, c, d);
            let z = skip_multispace(s, a, d);
            if z != d {
                SParsed::Failed(z)
            } else {
                SParsed::Done(z, SpecIdentRest { combos, id_comment, after }, errs3)
            }
        },
    }
}

/// The identifier line between offsets `i` and `d`, with the errors to report. A line that does
/// not parse is kept whole as the identifier, and reported. `None` when a number in it does not
/// fit its type.
pub open spec fn sp_dumb_identifier(s: Seq<char>, i: int, d: int) -> Option<(SpecIdent, Seq<SpecError>)> {
    match sp_ident_parts(s, i, d) {
        SParsed::Done(_, id, errs) => Some((id, errs)),
        SParsed::Failed(f) => Some(
            (
                SpecIdent {
                    path: None,
                    operator: None,
                    identifier: Ranged { inner: s.subrange(i, d), range: span_range(s, i, d) },
                    name: None,
                    has: None,
                    needs: None,
                    pass: None,
                    index: None,
                    id_comment: None,
                    comments_after_newline: seq![],
                },
                seq![
                    SpecError {
                        severity: Severity::Error,
                        range: span_range(s, f, d),
                        source: s.subrange(f, d),
                        message: "failed to parse identifier. Unexpected `"@ + s.subrange(f, d) + seq!['`'],
                        context: None,
                    },
                ],
            ),
        ),
        SParsed::Panicked => None,
    }
}

/// The error reported for a line of a block that could not be read
pub open spec fn unexpected_error(s: Seq<char>, a: int, x: int) -> SpecError {
    SpecError {
        severity: Severity::Error,
        range: span_range(s, a, x),
        source: s.subrange(a, x),
        message: "unexpected `"@ + s.subrange(a, x) + seq!['`'],
        context: None,
    }
}

/// The outcome of reading one item of a block
pub enum SpecItemStep {
    /// An item, where reading goes on, and the errors
    Item(SpecNodeItem, int, Seq<SpecError>),
    /// No item here
    NoItem,
    /// A number does not fit its type
    Panicked,
}

/// A node at offset `i`: the text up to where an identifier stops, with the comments and
/// whitespace after it, is the identifier line; then the block, and an optional trailing comment.
/// The errors are those of the block, then those of the identifier line.
pub open spec fn sp_node(s: Seq<char>, i: int, e: int, top_level: bool) -> SParsed<Ranged<SpecNode>>
    decreases e - i, 1int,
{
    match ident_stop(s, i, e) {
        None => SParsed::Failed(i),
        Some(p) => {
            let d = ident_tail(s, p, e);
            let b = skip_spaces(s, opt_line_ending(s, d, e), e);
            if !(i <= b <= e) {
                SParsed::Failed(i)
            } else {
                match sp_block(s, b, e) {
                    SParsed::Done(q, items, block_errs) => {
                        let (trailing_comment, end) = match sp_comment(s, q, e) {
                            SParsed::Done(t, cm, _) => (Some(cm), t),
                            _ => (None, q),
                        };
                        match sp_dumb_identifier(s, i, d) {
                            None => SParsed::Panicked,
                            Some((id, id_errs)) => SParsed::Done(
                                end,
                                Ranged {
                                    inner: SpecNode {
                                        top_level,
                                        path: id.path,
                                        operator: id.operator,
                                        identifier: id.identifier,
                                        name: id.name,
                                        has: id.has,
                                        needs: id.needs,
                                        pass: id.pass,
                                        index: id.index,
                                        id_comment: id.id_comment,
                                        comments_after_newline: id.comments_after_newline,
                                        block: items,
                                        trailing_comment,
                                    },
                                    range: wrap_range(s, i, end),
                                },
                                block_errs + id_errs,
                            ),
                        }
                    },
                    SParsed::Failed(_) => SParsed::Failed(i),
                    SParsed::Panicked => SParsed::Panicked,
                }
            }
        },
    }
}

/// A block at offset `b`: `{`, the items between optional whitespace, and `}` (reported when
/// missing)
pub open spec fn sp_block(s: Seq<char>, b: int, e: int) -> SParsed<Seq<SpecNodeItem>>
    decreases e - b, 0int,
{
    if !(0 <= b < e && s[b] == '{') {
        SParsed::Failed(b)
    } else {
        let m = skip_multispace(s, b + 1, e);
        if !(b < m <= e) {
            SParsed::Failed(b)
        } else {
            match sp_items(s, m, e) {
                None => SParsed::Panicked,
                Some((items, q, errs)) => {
                    let t = skip_multispace(s, q, e);
                    let (end, errs2) = if 0 <= t < e && s[t] == '}' {
                        (t + 1, seq![])
                    } else {
                        (t, seq![expect_error(s, t, e, "Expected closing }"@)])
                    };
                    SParsed::Done(end, items, errs + errs2)
                },
            }
        }
    }
}

/// One item of a block at `p`, after spaces: a comment, an empty line, an assignment, a node, or
/// the rest of the line up to a brace or line ending as an error. Spaces after it are read too.
pub open spec fn sp_item(s: Seq<char>, p: int, e: int) -> SpecItemStep
    decreases e - p, 2int,
{
    let a = skip_spaces(s, p, e);
    match comment_end(s, a, e) {
        Some(c) => SpecItemStep::Item(
            SpecNodeItem::Comment(Ranged { inner: s.subrange(a, c), range: wrap_range(s, a, c) }),
            skip_spaces(s, opt_line_ending(s, skip_spaces(s, c, e), e), e),
            seq![],
        ),
        None => match empty_line_end(s, a, e) {
            Some(l) => SpecItemStep::Item(SpecNodeItem::EmptyLine, skip_spaces(s, l, e), seq![]),
            None => match sp_key_val(s, a, e) {
                SParsed::Done(q, kv, errs) => SpecItemStep::Item(SpecNodeItem::KeyVal(kv), skip_spaces(s, q, e), errs),
                SParsed::Panicked => SpecItemStep::Panicked,
                SParsed::Failed(_) => if !(p <= a <= e) {
                    SpecItemStep::NoItem
                } else {
                    match sp_node(s, a, e, false) {
                        SParsed::Done(q, n, errs) => SpecItemStep::Item(
                            SpecNodeItem::Node(n),
                            skip_spaces(s, opt_line_ending(s, skip_spaces(s, q, e), e), e),
                            errs,
                        ),
                        SParsed::Panicked => SpecItemStep::Panicked,
                        SParsed::Failed(_) => {
                            let x = scan_to(s, a, e, seq!['}', '\r', '\n']);
                            if x > a {
                                SpecItemStep::Item(
                                    SpecNodeItem::Error(Ranged { inner: s.subrange(a, x), range: span_range(s, a, x) }),
                                    skip_spaces(s, x, e),
                                    seq![unexpected_error(s, a, x)],
                                )
                            } else {
                                SpecItemStep::NoItem
                            }
                        },
                    }
                },
            },
        },
    }
}

/// The items of a block from `p` on: as many as can be read; `None` when a number does not fit
/// its type
pub open spec fn sp_items(s: Seq<char>, p: int, e: int) -> Option<(Seq<SpecNodeItem>, int, Seq<SpecError>)>
    decreases e - p, 3int,
{
    match sp_item(s, p, e) {
        SpecItemStep::Item(x, q, errs) => if p < q <= e {
            match sp_items(s, q, e) {
                Some((rest, end, errs2)) => Some((seq![x] + rest, end, errs + errs2)),
                None => None,
            }
        } else {
            Some((seq![], p, seq![]))
        },
        SpecItemStep::NoItem => Some((seq![], p, seq![])),
        SpecItemStep::Panicked => None,
    }
}

/// A HAS block, a pass, a NEEDS block or an index after a node's identifier
pub enum Combo {
    /// A HAS block
    Has(Ranged<HasBlock>),
    /// A pass
    Pass(Ranged<Pass>),
    /// A NEEDS block
    Needs(Ranged<NeedsBlock>),
    /// An index
    Index(Ranged<Index>),
}

impl View for Combo {
    type V = SpecCombo;

    open spec fn view(&self) -> SpecCombo {
        match self {
            Combo::Has(h) => SpecCombo::Has(h@),
            Combo::Pass(p) => SpecCombo::Pass(p@),
            Combo::Needs(n) => SpecCombo::Needs(n@),
            Combo::Index(x) => SpecCombo::Index(*x),
        }
    }
}

/// The parts of a node's identifier line
pub struct NodeIdent {
    /// Optional path
    pub path: Option<Ranged<Path>>,
    /// Optional operator
    pub operator: Option<Ranged<Operator>>,
    /// The identifier
    pub identifier: Ranged<String>,
    /// Optional names
    pub name: Option<Ranged<Vec<String>>>,
    /// The first HAS block
    pub has: Option<Ranged<HasBlock>>,
    /// The first NEEDS block
    pub needs: Option<Ranged<NeedsBlock>>,
    /// The first pass
    pub pass: Option<Ranged<Pass>>,
    /// The first index
    pub index: Option<Ranged<Index>>,
    /// Optional comment after the identifier
    pub id_comment: Option<Ranged<Comment>>,
    /// Comments on the lines after
    pub comments_after_newline: Vec<Ranged<Comment>>,
}

impl View for NodeIdent {
    type V = SpecIdent;

    open spec fn view(&self) -> SpecIdent {
        SpecIdent {
            path: opt_view(self.path),
            operator: self.operator,
            identifier: self.identifier@,
            name: match self.name {
                Some(r) => Some(Ranged { inner: strings_view(r.inner@), range: r.range }),
                None => None,
            },
            has: opt_view(self.has),
            needs: opt_view(self.needs),
            pass: opt_view(self.pass),
            index: self.index,
            id_comment: opt_view(self.id_comment),
            comments_after_newline: comments_view(self.comments_after_newline@),
        }
    }
}

/// The outcome of reading one item of a block
pub enum ItemStep {
    /// An item, where reading goes on, and the errors
    Item(NodeItem, usize, Vec<Error>),
    /// No item here
    NoItem,
    /// A number does not fit its type
    Panicked,
}

impl View for ItemStep {
    type V = SpecItemStep;

    open spec fn view(&self) -> SpecItemStep {
        match self {
            ItemStep::Item(x, q, errs) => SpecItemStep::Item(x@, *q as int, errors_view(errs@)),
            ItemStep::NoItem => SpecItemStep::NoItem,
            ItemStep::Panicked => SpecItemStep::Panicked,
        }
    }
}

impl Src {
    /// Whether an identifier stops at `p`
    pub fn ident_stop_at(&self, p: usize, e: usize) -> (r: bool)
        requires
            p <= e <= self@.len(),
        ensures
            r == ident_stop_at(self@, p as int, e as int),
    {
        let t = self.skip_multispace(p, e);
        self.comment_end(p, e).is_some() || (t < e && (self.at(t) == '{' || self.at(t) == '}'))
    }

    /// The first offset at or after `p` where an identifier stops
    pub fn ident_stop(&self, p: usize, e: usize) -> (r: Option<usize>)
        requires
            p <= e <= self@.len(),
        ensures
            ident_stop(self@, p as int, e as int) == (match r {
                Some(x) => Some(x as int),
                None => None::<int>,
            }),
            r matches Some(j) ==> p <= j <= e,
    {
        let mut k = p;
        loop
            invariant
                p <= k <= e <= self@.len(),
                ident_stop(self@, p as int, e as int) == ident_stop(self@, k as int, e as int),
            decreases e - k,
        {
            if self.ident_stop_at(k, e) {
                return Some(k);
            }
            if k < e {
                k = k + 1;
            } else {
                return None;
            }
        }
    }

    /// End of the comments and whitespace from `p` on
    pub fn ident_tail(&self, p: usize, e: usize) -> (r: usize)
        requires
            p <= e <= self@.len(),
        ensures
            r == ident_tail(self@, p as int, e as int),
            p <= r <= e,
    {
        let mut k = p;
        loop
            invariant
                p <= k <= e <= self@.len(),
                ident_tail(self@, p as int, e as int) == ident_tail(self@, k as int, e as int),
            decreases e - k,
        {
            proof {
                lemma_comment_end(self@, k as int, e as int);
            }
            match self.comment_end(k, e) {
                Some(c) => {
                    k = c;
                },
                None => {
                    if k < e && (self.at(k) == ' ' || self.at(k) == '\t' || self.at(k) == '\r' || self.at(k) == '\n') {
                        let m = self.skip_multispace(k, e);
                        if k < m {
                            k = m;
                        } else {
                            return k;
                        }
                    } else {
                        return k;
                    }
                },
            }
        }
    }
}

fn parse_combo(src: &Src, q: usize, d: usize) -> (r: Parsed<Combo>)
    requires
        src.wf(),
        q <= d <= src@.len(),
    ensures
        r@ == sp_combo(src@, q as int, d as int),
        r matches Parsed::Done(x, _, _) ==> q < x <= d,
{
    match HasBlock::parse(src, q, d) {
        Parsed::Done(x, h, errs) => {
            return Parsed::Done(x, Combo::Has(h), errs);
        },
        _ => {},
    }
    match Pass::parse(src, q, d) {
        Parsed::Done(x, p, errs) => {
            return Parsed::Done(x, Combo::Pass(p), errs);
        },
        _ => {},
    }
    match NeedsBlock::parse(src, q, d) {
        Parsed::Done(x, n, errs) => {
            return Parsed::Done(x, Combo::Needs(n), errs);
        },
        _ => {},
    }
    match Index::parse(src, q, d) {
        Parsed::Done(x, ix, errs) => Parsed::Done(x, Combo::Index(ix), errs),
        Parsed::Failed(f) => Parsed::Failed(f),
        Parsed::Panicked => Parsed::Panicked,
    }
}

#[verifier::spinoff_prover]
#[verifier::rlimit(40)]
fn parse_combos(src: &Src, q: usize, d: usize) -> (r: Option<(Vec<Combo>, usize, Vec<Error>)>)
    requires
        src.wf(),
        q <= d <= src@.len(),
    ensures
        sp_combos(src@, q as int, d as int) == (match r {
            Some(x) => Some((x.0@.map_values(|c: Combo| c@), x.1 as int, errors_view(x.2@))),
            None => None,
        }),
        r matches Some(x) ==> q <= x.1 <= d,
{
    let mut combos: Vec<Combo> = Vec::new();
    let mut errs = no_errors();
    let mut p = q;
    loop
        invariant
            src.wf(),
            q <= p <= d <= src@.len(),
            sp_combos(src@, q as int, d as int) == (match sp_combos(src@, p as int, d as int) {
                Some((rest, end, errs2)) => Some((combos@.map_values(|c: Combo| c@) + rest, end, errors_view(errs@) + errs2)),
                None => None,
            }),
        decreases d - p,
    {
        let ghost old_combos = combos@;
        let ghost old_errs = errs@;
        match parse_combo(src, p, d) {
            Parsed::Done(x, c, errs1) => {
                let ghost cv = c@;
                combos.push(c);
                errs = join_errors(errs, errs1);
                proof {
                    assert(combos@.map_values(|c: Combo| c@) =~= old_combos.map_values(|c: Combo| c@).push(cv));
                    match sp_combos(src@, x as int, d as int) {
                        Some((rest, end, errs2)) => {
                            assert(old_combos.map_values(|c: Combo| c@) + (seq![cv] + rest) =~= combos@.map_values(
                                |c: Combo| c@,
                            ) + rest);
                            assert(errors_view(old_errs) + (errors_view(errs1@) + errs2) =~= errors_view(errs@) + errs2);
                        },
                        None => {},
                    }
                }
                p = x;
            },
            Parsed::Failed(_) => {
                proof {
                    assert(combos@.map_values(|c: Combo| c@) + seq![] =~= combos@.map_values(|c: Combo| c@));
                    assert(errors_view(errs@) + seq![] =~= errors_view(errs@));
                }
                return Some((combos, p, errs));
            },
            Parsed::Panicked => {
                return None;
            },
        }
    }
}

/// Sorts the combos by kind, keeping their order within each kind
fn split_combo(combo_list: Vec<Combo>) -> (r: (Vec<Ranged<HasBlock>>, Vec<Ranged<Pass>>, Vec<Ranged<NeedsBlock>>, Vec<Ranged<Index>>))
    ensures
        r.0@.map_values(|x: Ranged<HasBlock>| x@) == combo_has(combo_list@.map_values(|c: Combo| c@)),
        r.1@.map_values(|x: Ranged<Pass>| x@) == combo_pass(combo_list@.map_values(|c: Combo| c@)),
        r.2@.map_values(|x: Ranged<NeedsBlock>| x@) == combo_needs(combo_list@.map_values(|c: Combo| c@)),
        r.3@ == combo_index(combo_list@.map_values(|c: Combo| c@)),
{
    let ghost all = combo_list@.map_values(|c: Combo| c@);
    let mut list = combo_list;
    let mut has: Vec<Ranged<HasBlock>> = Vec::new();
    let mut pass: Vec<Ranged<Pass>> = Vec::new();
    let mut needs: Vec<Ranged<NeedsBlock>> = Vec::new();
    let mut index: Vec<Ranged<Index>> = Vec::new();
    let ghost mut k: int = 0;
    proof {
        assert(all.take(0) =~= Seq::<SpecCombo>::empty());
        assert(has@.map_values(|x: Ranged<HasBlock>| x@) =~= Seq::<Ranged<Seq<Ranged<SpecHasPredicate>>>>::empty());
        assert(pass@.map_values(|x: Ranged<Pass>| x@) =~= Seq::<Ranged<SpecPass>>::empty());
        assert(needs@.map_values(|x: Ranged<NeedsBlock>| x@) =~= Seq::<Ranged<Seq<Ranged<Seq<Ranged<SpecModClause>>>>>>::empty());
    }
    while list.len() > 0
        invariant
            0 <= k <= all.len(),
            list@.map_values(|c: Combo| c@) == all.skip(k),
            has@.map_values(|x: Ranged<HasBlock>| x@) == combo_has(all.take(k)),
            pass@.map_values(|x: Ranged<Pass>| x@) == combo_pass(all.take(k)),
            needs@.map_values(|x: Ranged<NeedsBlock>| x@) == combo_needs(all.take(k)),
            index@ == combo_index(all.take(k)),
        decreases list.len(),
    {
        let ghost old_list = list@;
        let ghost h0 = has@;
        let ghost p0 = pass@;
        let ghost n0 = needs@;
        let ghost x0 = index@;
        let item = list.remove(0);
        proof {
            assert(item == old_list[0]);
            assert(old_list.map_values(|c: Combo| c@)[0] == old_list[0]@);
            assert(old_list.map_values(|c: Combo| c@)[0] == all.skip(k)[0]);
            assert(old_list.len() > 0);
            assert(all.skip(k).len() == old_list.len());
            assert(k < all.len());
            assert(all.skip(k)[0] == all[k]);
            assert(item@ == all[k]);
            assert(list@ == old_list.remove(0));
            let lv = list@.map_values(|c: Combo| c@);
            let ov = old_list.map_values(|c: Combo| c@);
            assert(ov == all.skip(k));
            assert forall|j: int| 0 <= j < lv.len() implies #[trigger] lv[j] == all.skip(k + 1)[j] by {
                assert(list@[j] == old_list[j + 1]);
                assert(ov[j + 1] == all.skip(k)[j + 1]);
            }
            assert(list@.map_values(|c: Combo| c@) =~= all.skip(k + 1));
            assert(all.take(k + 1).drop_last() =~= all.take(k));
            assert(all.take(k + 1).last() == all[k]);
        }
        match item {
            Combo::Has(h) => {
                has.push(h);
                assert(has@.map_values(|x: Ranged<HasBlock>| x@) =~= h0.map_values(|x: Ranged<HasBlock>| x@) + seq![h@]);
                assert(pass@.map_values(|x: Ranged<Pass>| x@) =~= p0.map_values(|x: Ranged<Pass>| x@) + seq![]);
                assert(needs@.map_values(|x: Ranged<NeedsBlock>| x@) =~= n0.map_values(|x: Ranged<NeedsBlock>| x@) + seq![]);
                assert(index@ =~= x0 + seq![]);
            },
            Combo::Pass(p) => {
                pass.push(p);
                assert(has@.map_values(|x: Ranged<HasBlock>| x@) =~= h0.map_values(|x: Ranged<HasBlock>| x@) + seq![]);
                assert(pass@.map_values(|x: Ranged<Pass>| x@) =~= p0.map_values(|x: Ranged<Pass>| x@) + seq![p@]);
                assert(needs@.map_values(|x: Ranged<NeedsBlock>| x@) =~= n0.map_values(|x: Ranged<NeedsBlock>| x@) + seq![]);
                assert(index@ =~= x0 + seq![]);
            },
            Combo::Needs(n) => {
                needs.push(n);
                assert(has@.map_values(|x: Ranged<HasBlock>| x@) =~= h0.map_values(|x: Ranged<HasBlock>| x@) + seq![]);
                assert(pass@.map_values(|x: Ranged<Pass>| x@) =~= p0.map_values(|x: Ranged<Pass>| x@) + seq![]);
                assert(needs@.map_values(|x: Ranged<NeedsBlock>| x@) =~= n0.map_values(|x: Ranged<NeedsBlock>| x@) + seq![n@]);
                assert(index@ =~= x0 + seq![]);
            },
            Combo::Index(x) => {
                index.push(x);
                assert(has@.map_values(|x: Ranged<HasBlock>| x@) =~= h0.map_values(|x: Ranged<HasBlock>| x@) + seq![]);
                assert(pass@.map_values(|x: Ranged<Pass>| x@) =~= p0.map_values(|x: Ranged<Pass>| x@) + seq![]);
                assert(needs@.map_values(|x: Ranged<NeedsBlock>| x@) =~= n0.map_values(|x: Ranged<NeedsBlock>| x@) + seq![]);
                assert(index@ =~= x0 + seq![x]);
            },
        }
        proof {
            k = k + 1;
        }
    }
    assert(all.take(k) =~= all);
    (has, pass, needs, index)
}

/// The first HAS block, NEEDS block, pass and index among the combos, and the errors for the
/// HAS blocks, NEEDS blocks and passes beyond the first
fn map_correct_identifier(combos: Vec<Combo>) -> (r: (
    Option<Ranged<HasBlock>>,
    Option<Ranged<NeedsBlock>>,
    Option<Ranged<Pass>>,
    Option<Ranged<Index>>,
    Vec<Error>,
))
    ensures
        opt_view(r.0) == first_of(combo_has(combos@.map_values(|c: Combo| c@))),
        opt_view(r.1) == first_of(combo_needs(combos@.map_values(|c: Combo| c@))),
        opt_view(r.2) == first_of(combo_pass(combos@.map_values(|c: Combo| c@))),
        r.3 == first_of(combo_index(combos@.map_values(|c: Combo| c@))),
        errors_view(r.4@) == extra_has_errors(combo_has(combos@.map_values(|c: Combo| c@))) + extra_needs_errors(
            combo_needs(combos@.map_values(|c: Combo| c@)),
        ) + extra_pass_errors(combo_pass(combos@.map_values(|c: Combo| c@))),
{
    let (has_vec, pass_vec, needs_vec, index_vec) = split_combo(combos);
    let (has, e1) = first_has(has_vec);
    let (needs, e2) = first_needs(needs_vec);
    let (pass, e3) = first_pass(pass_vec);
    let index = if index_vec.len() > 0 {
        Some(Ranged { inner: index_vec[0].inner, range: index_vec[0].range })
    } else {
        None
    };
    (has, needs, pass, index, join_errors(join_errors(e1, e2), e3))
}

fn first_has(v: Vec<Ranged<HasBlock>>) -> (r: (Option<Ranged<HasBlock>>, Vec<Error>))
    ensures
        opt_view(r.0) == first_of(v@.map_values(|x: Ranged<HasBlock>| x@)),
        errors_view(r.1@) == extra_has_errors(v@.map_values(|x: Ranged<HasBlock>| x@)),
{
    let ghost all = v@.map_values(|x: Ranged<HasBlock>| x@);
    let mut v = v;
    if v.len() == 0 {
        return (None, no_errors());
    }
    let ghost old_v = v@;
    let first = v.remove(0);
    let ghost rest = v@.map_values(|x: Ranged<HasBlock>| x@);
    assert(rest =~= all.skip(1)) by {
        assert forall|j: int| 0 <= j < rest.len() implies #[trigger] rest[j] == all.skip(1)[j] by {
            assert(v@[j] == old_v[j + 1]);
        }
    }
    let mut errs: Vec<Error> = Vec::new();
    let mut k: usize = 0;
    while k < v.len()
        invariant
            k <= v@.len(),
            rest == v@.map_values(|x: Ranged<HasBlock>| x@),
            errors_view(errs@) == rest.take(k as int).map_values(|x: Ranged<Seq<Ranged<SpecHasPredicate>>>| extra_error(x.range, has_block_text(x.inner), "Got extra HAS block"@)),
        decreases v.len() - k,
    {
        let ghost old_errs = errs@;
        let source = v[k].inner.to_string();
        let err = Error { severity: Severity::Error, range: v[k].range, source, message: String::from_str("Got extra HAS block"), context: None };
        errs.push(err);
        assert(rest.take(k + 1) =~= rest.take(k as int).push(rest[k as int]));
        assert(errors_view(errs@) =~= errors_view(old_errs).push(err@));
        k = k + 1;
    }
    assert(rest.take(k as int) =~= rest);
    (Some(first), errs)
}

fn first_needs(v: Vec<Ranged<NeedsBlock>>) -> (r: (Option<Ranged<NeedsBlock>>, Vec<Error>))
    ensures
        opt_view(r.0) == first_of(v@.map_values(|x: Ranged<NeedsBlock>| x@)),
        errors_view(r.1@) == extra_needs_errors(v@.map_values(|x: Ranged<NeedsBlock>| x@)),
{
    let ghost all = v@.map_values(|x: Ranged<NeedsBlock>| x@);
    let mut v = v;
    if v.len() == 0 {
        return (None, no_errors());
    }
    let ghost old_v = v@;
    let first = v.remove(0);
    let ghost rest = v@.map_values(|x: Ranged<NeedsBlock>| x@);
    assert(rest =~= all.skip(1)) by {
        assert forall|j: int| 0 <= j < rest.len() implies #[trigger] rest[j] == all.skip(1)[j] by {
            assert(v@[j] == old_v[j + 1]);
        }
    }
    let mut errs: Vec<Error> = Vec::new();
    let mut k: usize = 0;
    while k < v.len()
        invariant
            k <= v@.len(),
            rest == v@.map_values(|x: Ranged<NeedsBlock>| x@),
            errors_view(errs@) == rest.take(k as int).map_values(|x: Ranged<Seq<Ranged<Seq<Ranged<SpecModClause>>>>>| extra_error(x.range, needs_text(x.inner), "Got extra NEEDS block"@)),
        decreases v.len() - k,
    {
        let ghost old_errs = errs@;
        let source = v[k].inner.to_string();
        let err = Error { severity: Severity::Error, range: v[k].range, source, message: String::from_str("Got extra NEEDS block"), context: None };
        errs.push(err);
        assert(rest.take(k + 1) =~= rest.take(k as int).push(rest[k as int]));
        assert(errors_view(errs@) =~= errors_view(old_errs).push(err@));
        k = k + 1;
    }
    assert(rest.take(k as int) =~= rest);
    (Some(first), errs)
}

fn first_pass(v: Vec<Ranged<Pass>>) -> (r: (Option<Ranged<Pass>>, Vec<Error>))
    ensures
        opt_view(r.0) == first_of(v@.map_values(|x: Ranged<Pass>| x@)),
        errors_view(r.1@) == extra_pass_errors(v@.map_values(|x: Ranged<Pass>| x@)),
{
    let ghost all = v@.map_values(|x: Ranged<Pass>| x@);
    let mut v = v;
    if v.len() == 0 {
        return (None, no_errors());
    }
    let ghost old_v = v@;
    let first = v.remove(0);
    let ghost rest = v@.map_values(|x: Ranged<Pass>| x@);
    assert(rest =~= all.skip(1)) by {
        assert forall|j: int| 0 <= j < rest.len() implies #[trigger] rest[j] == all.skip(1)[j] by {
            assert(v@[j] == old_v[j + 1]);
        }
    }
    let mut errs: Vec<Error> = Vec::new();
    let mut k: usize = 0;
    while k < v.len()
        invariant
            k <= v@.len(),
            rest == v@.map_values(|x: Ranged<Pass>| x@),
            errors_view(errs@) == rest.take(k as int).map_values(|x: Ranged<SpecPass>| extra_error(x.range, pass_text(x.inner), "Got extra PASS block"@)),
        decreases v.len() - k,
    {
        let ghost old_errs = errs@;
        let source = v[k].inner.to_string();
        let err = Error { severity: Severity::Error, range: v[k].range, source, message: String::from_str("Got extra PASS block"), context: None };
        errs.push(err);
        assert(rest.take(k + 1) =~= rest.take(k as int).push(rest[k as int]));
        assert(errors_view(errs@) =~= errors_view(old_errs).push(err@));
        k = k + 1;
    }
    assert(rest.take(k as int) =~= rest);
    (Some(first), errs)
}

fn parse_names_rest(src: &Src, x: usize, d: usize) -> (r: (Vec<String>, usize))
    requires
        src.wf(),
        x <= d <= src@.len(),
    ensures
        sp_names_rest(src@, x as int, d as int) == (strings_view(r.0@), r.1 as int),
        x <= r.1 <= d,
{
    let mut names: Vec<String> = Vec::new();
    let mut p = x;
    loop
        invariant
            src.wf(),
            x <= p <= d <= src@.len(),
            sp_names_rest(src@, x as int, d as int) == ({
                let (rest, end) = sp_names_rest(src@, p as int, d as int);
                (strings_view(names@) + rest, end)
            }),
        decreases d - p,
    {
        if p < d && src.at(p) == '|' {
            let y = src.scan_to_set2(p + 1, d, '|', ']');
            if p + 1 < y {
                let ghost old_names = names@;
                let t = src.text(p + 1, y);
                let ghost tv = t@;
                names.push(t);
                proof {
                    let (rest, end) = sp_names_rest(src@, y as int, d as int);
                    assert(strings_view(old_names) + (seq![tv] + rest) =~= strings_view(names@) + rest);
                }
                p = y;
            } else {
                assert(strings_view(names@) + seq![] =~= strings_view(names@));
                return (names, p);
            }
        } else {
            assert(strings_view(names@) + seq![] =~= strings_view(names@));
            return (names, p);
        }
    }
}

/// Parses the optional names of a node at `k`
fn parse_name(src: &Src, k: usize, d: usize) -> (r: (Option<Ranged<Vec<String>>>, usize, Vec<Error>))
    requires
        src.wf(),
        k <= d <= src@.len(),
    ensures
        sp_node_name(src@, k as int, d as int) == (match r.0 {
            Some(n) => Some(Ranged { inner: strings_view(n.inner@), range: n.range }),
            None => None,
        }, r.1 as int, errors_view(r.2@)),
        k <= r.1 <= d,
{
    if !(k < d && src.at(k) == '[') {
        return (None, k, no_errors());
    }
    let x = src.scan_to_set2(k + 1, d, '|', ']');
    let mut names: Vec<String> = Vec::new();
    let q = if x > k + 1 {
        let first = src.text(k + 1, x);
        let ghost fv = first@;
        let (rest, q) = parse_names_rest(src, x, d);
        names.push(first);
        let mut rest = rest;
        let ghost rv = strings_view(rest@);
        names.append(&mut rest);
        assert(strings_view(names@) =~= seq![fv] + rv);
        q
    } else {
        assert(strings_view(names@) =~= Seq::<Seq<char>>::empty());
        k + 1
    };
    let (end, errs) = if q < d && src.at(q) == ']' {
        (q + 1, no_errors())
    } else {
        let mut err = src.expect_error(q, d, "Expected closing `]`");
        err.context = Some(Ranged { inner: String::from_str("Expected due to `[` found here"), range: src.wrap(k, k + 1) });
        (q, one_error(err))
    };
    (Some(Ranged { inner: names, range: src.wrap(k, end) }), end, errs)
}

fn parse_comments_after(src: &Src, q: usize, d: usize) -> (r: (Vec<Ranged<Comment>>, usize))
    requires
        src.wf(),
        q <= d <= src@.len(),
    ensures
        sp_comments_after(src@, q as int, d as int) == (comments_view(r.0@), r.1 as int),
        q <= r.1 <= d,
{
    let mut comments: Vec<Ranged<Comment>> = Vec::new();
    let mut p = q;
    loop
        invariant
            src.wf(),
            q <= p <= d <= src@.len(),
            sp_comments_after(src@, q as int, d as int) == ({
                let (rest, end) = sp_comments_after(src@, p as int, d as int);
                (comments_view(comments@) + rest, end)
            }),
        decreases d - p,
    {
        let l = src.opt_line_ending(p, d);
        match Comment::parse(src, l, d) {
            Parsed::Done(c, cm, _) => {
                if p < c {
                    let ghost old = comments@;
                    let ghost cv = cm@;
                    comments.push(cm);
                    proof {
                        let (rest, end) = sp_comments_after(src@, c as int, d as int);
                        assert(comments_view(old) + (seq![cv] + rest) =~= comments_view(comments@) + rest);
                    }
                    p = c;
                } else {
                    assert(comments_view(comments@) + seq![] =~= comments_view(comments@));
                    return (comments, p);
                }
            },
            _ => {
                assert(comments_view(comments@) + seq![] =~= comments_view(comments@));
                return (comments, p);
            },
        }
    }
}

/// What follows a node's names on its identifier line
pub struct IdentRest {
    /// HAS blocks, passes, NEEDS blocks and indices, in the order written
    pub combos: Vec<Combo>,
    /// Optional comment after the identifier
    pub id_comment: Option<Ranged<Comment>>,
    /// Comments on the lines after
    pub after: Vec<Ranged<Comment>>,
}

impl View for IdentRest {
    type V = SpecIdentRest;

    open spec fn view(&self) -> SpecIdentRest {
        SpecIdentRest {
            combos: self.combos@.map_values(|c: Combo| c@),
            id_comment: opt_view(self.id_comment),
            after: comments_view(self.after@),
        }
    }
}

fn parse_ident_prefix(src: &Src, i: usize, d: usize) -> (r: (Option<Ranged<Path>>, Option<Ranged<Operator>>, usize, Vec<Error>))
    requires
        src.wf(),
        i <= d <= src@.len(),
    ensures
        sp_ident_prefix(src@, i as int, d as int) == (opt_view(r.0), r.1, r.2 as int, errors_view(r.3@)),
        i <= r.2 <= d,
{
    let p0 = src.skip_multispace(i, d);
    let (path, p1, errs1): (Option<Ranged<Path>>, usize, Vec<Error>) = if p0 < d && src.at(p0) == '#' {
        let (pth, q, errs) = Path::parse(src, p0 + 1, d);
        (Some(pth), q, errs)
    } else {
        (None, p0, no_errors())
    };
    let (operator, p2) = match Operator::parse(src, p1, d) {
        Parsed::Done(q, o, _) => (Some(o), q),
        _ => (None, p1),
    };
    (path, operator, p2, errs1)
}

fn parse_ident_rest(src: &Src, n: usize, d: usize) -> (r: Parsed<IdentRest>)
    requires
        src.wf(),
        n <= d <= src@.len(),
    ensures
        r@ == sp_ident_rest(src@, n as int, d as int),
        r matches Parsed::Failed(f) ==> n <= f <= d,
{
    let (combos, r, errs3) = match parse_combos(src, n, d) {
        None => {
            return Parsed::Panicked;
        },
        Some(x) => x,
    };
    let (id_comment, c) = match Comment::parse(src, r, d) {
        Parsed::Done(q, cm, _) => (Some(cm), q),
        _ => (None, r),
    };
    let (after, a) = parse_comments_after(src, c, d);
    let z = src.skip_multispace(a, d);
    if z != d {
        return Parsed::Failed(z);
    }
    Parsed::Done(z, IdentRest { combos, id_comment, after }, errs3)
}

/// Parses the identifier line between offsets `i` and `d`
fn parse_ident_parts(src: &Src, i: usize, d: usize) -> (r: Parsed<NodeIdent>)
    requires
        src.wf(),
        i <= d <= src@.len(),
    ensures
        r@ == sp_ident_parts(src@, i as int, d as int),
        r matches Parsed::Failed(f) ==> i <= f <= d,
{
    let (path, operator, p2, errs1) = parse_ident_prefix(src, i, d);
    let k = src.id_run(p2, d);
    if k == p2 {
        return Parsed::Failed(p2);
    }
    let (name, n, errs2) = parse_name(src, k, d);
    let (rest, z, errs3) = match parse_ident_rest(src, n, d) {
        Parsed::Panicked => {
            return Parsed::Panicked;
        },
        Parsed::Failed(z) => {
            return Parsed::Failed(z);
        },
        Parsed::Done(z, rest, errs3) => (rest, z, errs3),
    };
    let ghost cv = rest.combos@.map_values(|c: Combo| c@);
    let (has, needs, pass, index, errs4) = map_correct_identifier(rest.combos);
    let identifier = Ranged { inner: src.text(p2, k), range: src.wrap(p2, k) };
    let ghost e1 = errors_view(errs1@);
    let ghost e2 = errors_view(errs2@);
    let ghost e3 = errors_view(errs3@);
    let errs = join_errors(join_errors(join_errors(errs1, errs2), errs3), errs4);
    proof {
        assert(e1 + e2 + e3 + (extra_has_errors(combo_has(cv)) + extra_needs_errors(combo_needs(cv))
            + extra_pass_errors(combo_pass(cv))) =~= e1 + e2 + e3 + extra_has_errors(combo_has(cv))
            + extra_needs_errors(combo_needs(cv)) + extra_pass_errors(combo_pass(cv)));
    }
    Parsed::Done(
        z,
        NodeIdent {
            path,
            operator,
            identifier,
            name,
            has,
            needs,
            pass,
            index,
            id_comment: rest.id_comment,
            comments_after_newline: rest.after,
        },
        errs,
    )
}

/// Parses the identifier line between offsets `i` and `d`; a line that does not parse is kept
/// whole as the identifier and reported. `None` when a number in it does not fit its type.
fn dumb_identifier_parser(src: &Src, i: usize, d: usize) -> (r: Option<(NodeIdent, Vec<Error>)>)
    requires
        src.wf(),
        i <= d <= src@.len(),
    ensures
        sp_dumb_identifier(src@, i as int, d as int) == (match r {
            Some(x) => Some((x.0@, errors_view(x.1@))),
            None => None,
        }),
{
    match parse_ident_parts(src, i, d) {
        Parsed::Done(_, id, errs) => Some((id, errs)),
        Parsed::Failed(f) => {
            let rest = src.text(f, d);
            let mut message = String::from_str("failed to parse identifier. Unexpected `");
            message.append(rest.as_str());
            push_char(&mut message, '`');
            assert(message@ =~= "failed to parse identifier. Unexpected `"@ + src@.subrange(f as int, d as int) + seq!['`']);
            let err = Error { severity: Severity::Error, range: src.span(f, d), source: rest, message, context: None };
            let id = NodeIdent {
                path: None,
                operator: None,
                identifier: Ranged { inner: src.text(i, d), range: src.span(i, d) },
                name: None,
                has: None,
                needs: None,
                pass: None,
                index: None,
                id_comment: None,
                comments_after_newline: Vec::new(),
            };
            assert(comments_view(id.comments_after_newline@) =~= Seq::<Ranged<Seq<char>>>::empty());
            Some((id, one_error(err)))
        },
        Parsed::Panicked => None,
    }
}

/// The view of the outcome of reading a block
pub open spec fn block_parsed_view(r: Parsed<Vec<NodeItem>>) -> SParsed<Seq<SpecNodeItem>> {
    match r {
        Parsed::Done(q, items, errs) => SParsed::Done(q as int, node_items_view(items@), errors_view(errs@)),
        Parsed::Failed(f) => SParsed::Failed(f as int),
        Parsed::Panicked => SParsed::Panicked,
    }
}

/// The views of items with one more item
pub proof fn lemma_node_items_view_push(v: Seq<NodeItem>, x: NodeItem)
    ensures
        node_items_view(v.push(x)) == node_items_view(v).push(x@),
{
    assert(v.push(x).drop_last() =~= v);
}

impl Node {
    /// Parses a node at offset `i`; `state` tells whether it stands at the top level
    pub fn parse(src: &Src, i: usize, e: usize, state: ParserState) -> (r: Parsed<Ranged<Node>>)
        requires
            src.wf(),
            i <= e <= src@.len(),
        ensures
            r@ == sp_node(src@, i as int, e as int, state.top_level),
            r matches Parsed::Done(q, _, _) ==> i < q <= e,
            r matches Parsed::Done(q, n, _) ==> node_nesting(n.inner@) <= q - i,
            r matches Parsed::Done(_, n, _) ==> n.inner@.top_level == state.top_level && items_not_top(n.inner@.block),
        decreases e - i, 1int,
    {
        let top_level = state.top_level;
        let p = match src.ident_stop(i, e) {
            None => {
                return Parsed::Failed(i);
            },
            Some(p) => p,
        };
        let d = src.ident_tail(p, e);
        let b0 = src.opt_line_ending(d, e);
        let b = src.skip_spaces(b0, e);
        let (q, items, block_errs) = match parse_block(src, b, e) {
            Parsed::Done(q, items, errs) => (q, items, errs),
            Parsed::Failed(_) => {
                return Parsed::Failed(i);
            },
            Parsed::Panicked => {
                return Parsed::Panicked;
            },
        };
        let (trailing_comment, end) = match Comment::parse(src, q, e) {
            Parsed::Done(t, cm, _) => (Some(cm), t),
            _ => (None, q),
        };
        let (id, id_errs) = match dumb_identifier_parser(src, i, d) {
            None => {
                return Parsed::Panicked;
            },
            Some(x) => x,
        };
        let node = Node {
            top_level,
            path: id.path,
            operator: id.operator,
            identifier: id.identifier,
            name: id.name,
            has: id.has,
            needs: id.needs,
            pass: id.pass,
            index: id.index,
            id_comment: id.id_comment,
            comments_after_newline: id.comments_after_newline,
            block: items,
            trailing_comment,
        };
        Parsed::Done(end, Ranged { inner: node, range: src.wrap(i, end) }, join_errors(block_errs, id_errs))
    }
}

/// Parses a block at offset `b`: `{`, its items, and `}`
fn parse_block(src: &Src, b: usize, e: usize) -> (r: Parsed<Vec<NodeItem>>)
    requires
        src.wf(),
        b <= e <= src@.len(),
    ensures
        block_parsed_view(r) == sp_block(src@, b as int, e as int),
        r matches Parsed::Done(q, _, _) ==> b < q <= e,
        r matches Parsed::Done(q, items, _) ==> items_nesting(node_items_view(items@)) + 1 <= q - b,
        r matches Parsed::Done(_, items, _) ==> items_not_top(node_items_view(items@)),
    decreases e - b, 0int,
{
    if !(b < e && src.at(b) == '{') {
        return Parsed::Failed(b);
    }
    let m = src.skip_multispace(b + 1, e);
    let (items, q, errs) = match parse_items(src, m, e) {
        None => {
            return Parsed::Panicked;
        },
        Some(x) => x,
    };
    let t = src.skip_multispace(q, e);
    let (end, errs2) = if t < e && src.at(t) == '}' {
        (t + 1, no_errors())
    } else {
        (t, one_error(src.expect_error(t, e, "Expected closing }")))
    };
    Parsed::Done(end, items, join_errors(errs, errs2))
}

/// Reads one item of a block at `p`
#[verifier::spinoff_prover]
#[verifier::rlimit(40)]
fn parse_item(src: &Src, p: usize, e: usize) -> (r: ItemStep)
    requires
        src.wf(),
        p <= e <= src@.len(),
    ensures
        r@ == sp_item(src@, p as int, e as int),
        r matches ItemStep::Item(_, q, _) ==> p < q <= e,
        r matches ItemStep::Item(x, q, _) ==> item_nesting(x@) <= q - p,
        r matches ItemStep::Item(x, _, _) ==> item_not_top(x@),
    decreases e - p, 2int,
{
    let a = src.skip_spaces(p, e);
    proof {
        lemma_comment_end(src@, a as int, e as int);
        lemma_empty_line_end(src@, a as int, e as int);
    }
    match src.comment_end(a, e) {
        Some(c) => {
            let item = NodeItem::Comment(Ranged { inner: Comment { text: src.text(a, c) }, range: src.wrap(a, c) });
            let c1 = src.skip_spaces(c, e);
            let c2 = src.opt_line_ending(c1, e);
            let q = src.skip_spaces(c2, e);
            return ItemStep::Item(item, q, no_errors());
        },
        None => {},
    }
    match src.empty_line_end(a, e) {
        Some(l) => {
            return ItemStep::Item(NodeItem::EmptyLine, src.skip_spaces(l, e), no_errors());
        },
        None => {},
    }
    match KeyVal::parse(src, a, e) {
        Parsed::Done(q, kv, errs) => {
            return ItemStep::Item(NodeItem::KeyVal(kv), src.skip_spaces(q, e), errs);
        },
        Parsed::Panicked => {
            return ItemStep::Panicked;
        },
        Parsed::Failed(_) => {},
    }
    match Node::parse(src, a, e, ParserState { top_level: false }) {
        Parsed::Done(q, n, errs) => {
            let q1 = src.skip_spaces(q, e);
            let q2 = src.opt_line_ending(q1, e);
            ItemStep::Item(NodeItem::Node(n), src.skip_spaces(q2, e), errs)
        },
        Parsed::Panicked => ItemStep::Panicked,
        Parsed::Failed(_) => {
            let x = src.scan_to_set3(a, e, '}', '\r', '\n');
            if x > a {
                let text = src.text(a, x);
                let mut message = String::from_str("unexpected `");
                message.append(text.as_str());
                push_char(&mut message, '`');
                assert(message@ =~= "unexpected `"@ + src@.subrange(a as int, x as int) + seq!['`']);
                let err = Error { severity: Severity::Error, range: src.span(a, x), source: src.text(a, x), message, context: None };
                ItemStep::Item(NodeItem::Error(Ranged { inner: text, range: src.span(a, x) }), src.skip_spaces(x, e), one_error(err))
            } else {
                ItemStep::NoItem
            }
        },
    }
}

/// Reads the items of a block from `p` on
#[verifier::spinoff_prover]
#[verifier::rlimit(30)]
fn parse_items(src: &Src, p: usize, e: usize) -> (r: Option<(Vec<NodeItem>, usize, Vec<Error>)>)
    requires
        src.wf(),
        p <= e <= src@.len(),
    ensures
        sp_items(src@, p as int, e as int) == (match r {
            Some(x) => Some((node_items_view(x.0@), x.1 as int, errors_view(x.2@))),
            None => None,
        }),
        r matches Some(x) ==> p <= x.1 <= e,
        r matches Some(x) ==> items_nesting(node_items_view(x.0@)) <= x.1 - p,
        r matches Some(x) ==> items_not_top(node_items_view(x.0@)),
    decreases e - p, 3int,
{
    let mut items: Vec<NodeItem> = Vec::new();
    let mut errs = no_errors();
    let mut cur = p;
    assert(node_items_view(items@) =~= Seq::<SpecNodeItem>::empty());
    loop
        invariant
            src.wf(),
            p <= cur <= e <= src@.len(),
            items_nesting(node_items_view(items@)) <= cur - p,
            items_not_top(node_items_view(items@)),
            sp_items(src@, p as int, e as int) == (match sp_items(src@, cur as int, e as int) {
                Some((rest, end, errs2)) => Some((node_items_view(items@) + rest, end, errors_view(errs@) + errs2)),
                None => None,
            }),
        decreases e - cur,
    {
        match parse_item(src, cur, e) {
            ItemStep::Item(x, q, errs1) => {
                let ghost old_items = items@;
                let ghost old_errs = errs@;
                let ghost xv = x@;
                proof {
                    lemma_node_items_view_push(old_items, x);
                    lemma_items_nesting_push(node_items_view(old_items), xv);
                    assert(node_items_view(old_items).push(xv).drop_last() =~= node_items_view(old_items));
                }
                items.push(x);
                errs = join_errors(errs, errs1);
                proof {
                    match sp_items(src@, q as int, e as int) {
                        Some((rest, end, errs2)) => {
                            assert(node_items_view(old_items) + (seq![xv] + rest) =~= node_items_view(items@) + rest);
                            assert(errors_view(old_errs) + (errors_view(errs1@) + errs2) =~= errors_view(errs@) + errs2);
                        },
                        None => {},
                    }
                }
                cur = q;
            },
            ItemStep::NoItem => {
                assert(node_items_view(items@) + seq![] =~= node_items_view(items@));
                assert(errors_view(errs@) + seq![] =~= errors_view(errs@));
                return Some((items, cur, errs));
            },
            ItemStep::Panicked => {
                return None;
            },
        }
    }
}

/// Names written one after the other, separated by `|`
pub open spec fn names_joined(n: Seq<Seq<char>>) -> Seq<char>
    decreases n.len(),
{
    if n.len() == 0 {
        seq![]
    } else if n.len() == 1 {
        n[0]
    } else {
        names_joined(n.drop_last()) + seq!['|'] + n.last()
    }
}

/// The number of characters in all the names
pub open spec fn names_len(n: Seq<Seq<char>>) -> int
    decreases n.len(),
{
    if n.len() == 0 {
        0
    } else {
        names_len(n.drop_last()) + n.last().len()
    }
}

/// How a node's identifier line is written: `#` and the path, the operator, the identifier, the
/// names, the HAS block, the pass, the NEEDS block and the index
pub open spec fn node_name_text(n: SpecNode) -> Seq<char> {
    (match n.path {
        Some(p) => seq!['#'] + path_text(p.inner),
        None => seq![],
    }) + (match n.operator {
        Some(o) => operator_text(o.inner),
        None => seq![],
    }) + n.identifier.inner + (match n.name {
        Some(nm) => seq!['['] + names_joined(nm.inner) + seq![']'],
        None => seq![],
    }) + (match n.has {
        Some(h) => has_block_text(h.inner),
        None => seq![],
    }) + (match n.pass {
        Some(p) => pass_text(p.inner),
        None => seq![],
    }) + (match n.needs {
        Some(x) => needs_text(x.inner),
        None => seq![],
    }) + (match n.index {
        Some(x) => index_text(x.inner),
        None => seq![],
    })
}

/// The text of an optional comment, or nothing
pub open spec fn comment_text(c: Option<Ranged<Seq<char>>>) -> Seq<char> {
    match c {
        Some(c) => c.inner,
        None => seq![],
    }
}

/// The length the node would have written on one line with its one item: the identifier line
/// (without the names' brackets and separators) and the item's key, operator and value, and seven
/// for the braces and spaces
pub open spec fn one_line_len(n: SpecNode, kv: SpecKeyVal) -> int {
    7 + (match n.path {
        Some(p) => path_text(p.inner).len() as int,
        None => 0,
    }) + (match n.operator {
        Some(o) => operator_text(o.inner).len() as int,
        None => 0,
    }) + n.identifier.inner.len() + (match n.name {
        Some(nm) => names_len(nm.inner),
        None => 0,
    }) + (match n.has {
        Some(h) => has_block_text(h.inner).len() as int,
        None => 0,
    }) + (match n.needs {
        Some(x) => needs_text(x.inner).len() as int,
        None => 0,
    }) + (match n.pass {
        Some(p) => pass_text(p.inner).len() as int,
        None => 0,
    }) + (match n.index {
        Some(x) => index_text(x.inner).len() as int,
        None => 0,
    }) + (if kv.operator is Some {
        1int
    } else {
        0int
    }) + kv.key.inner.len() + assignment_operator_text(kv.assignment_operator.inner).len()
        + kv.val.inner.len()
}

/// A node is short when it has no comment after its identifier, its first item is an assignment
/// without a comment, and written on one line it takes at most 72 characters
pub open spec fn is_short_node(n: SpecNode) -> bool {
    n.id_comment is None && n.block.len() > 0 && match n.block[0] {
        SpecNodeItem::KeyVal(kv) => kv.inner.comment is None && one_line_len(n, kv.inner) <= 72,
        _ => false,
    }
}

/// Whether a node with one item is to be written on one line: as the setting says, or, when it
/// says to keep the layout, when its item is an assignment that starts on the identifier's line
pub open spec fn collapse(should_collapse: Option<bool>, n: SpecNode) -> bool {
    match should_collapse {
        Some(b) => b,
        None => n.block.len() > 0 && match n.block[0] {
            SpecNodeItem::KeyVal(kv) => kv.range.start.line == n.identifier.range.start.line,
            _ => false,
        },
    }
}

/// Comments, each on a line of its own
pub open spec fn comments_print(c: Seq<Ranged<Seq<char>>>, depth: nat, indentation: Seq<char>, line_ending: Seq<char>) -> Seq<char>
    decreases c.len(),
{
    if c.len() == 0 {
        seq![]
    } else {
        comments_print(c.drop_last(), depth, indentation, line_ending) + comment_print(
            c.last().inner,
            depth,
            indentation,
            line_ending,
        )
    }
}

/// How a node is printed at nesting depth `depth`: the comments after its identifier line, then
/// either `{}` when it is empty, or its one item between braces on the same line when it is to be
/// collapsed and short, or else its block on the lines that follow, one level deeper
pub open spec fn node_print(n: SpecNode, depth: nat, ind: Seq<char>, le: Seq<char>, sc: Option<bool>) -> Seq<char>
    decreases n,
{
    let pad = repeat_text(ind, depth);
    comments_print(n.comments_after_newline, depth, ind, le) + if n.block.len() == 0 && n.id_comment is None {
        pad + node_name_text(n) + seq![' ', '{', '}'] + comment_text(n.trailing_comment) + le
    } else if n.block.len() == 1 && collapse(sc, n) && is_short_node(n) {
        pad + node_name_text(n) + seq![' ', '{', ' '] + node_item_print(n.block[0], 0, ind, seq![], sc) + seq![
            ' ',
            '}',
        ] + comment_text(n.trailing_comment) + le
    } else {
        pad + node_name_text(n) + comment_text(n.id_comment) + le + pad + seq!['{'] + le + node_items_print(
            n.block,
            depth + 1,
            ind,
            le,
            sc,
        ) + pad + seq!['}'] + comment_text(n.trailing_comment) + le
    }
}

/// A node whose first assignment carries a comment is never written on one line, whatever the
/// setting: the name line, `{` on a line of its own, the items each on their own lines one level
/// deeper, and `}` on a line of its own. With that assignment as its only item, the assignment
/// and its comment take a line of their own, which the line ending closes.
pub proof fn lemma_commented_assignment_keeps_its_line(
    n: SpecNode,
    depth: nat,
    ind: Seq<char>,
    le: Seq<char>,
    sc: Option<bool>,
)
    requires
        n.block.len() > 0,
        n.block[0] is KeyVal,
        n.block[0]->KeyVal_0.inner.comment is Some,
    ensures
        node_print(n, depth, ind, le, sc) == comments_print(n.comments_after_newline, depth, ind, le) + (repeat_text(
            ind,
            depth,
        ) + node_name_text(n) + comment_text(n.id_comment) + le + repeat_text(ind, depth) + seq!['{'] + le
            + node_items_print(n.block, depth + 1, ind, le, sc) + repeat_text(ind, depth) + seq!['}'] + comment_text(
            n.trailing_comment,
        ) + le),
        n.block.len() == 1 ==> node_items_print(n.block, depth + 1, ind, le, sc) == key_val_print(
            n.block[0]->KeyVal_0.inner,
            depth + 1,
            ind,
            le,
        ),
{
    assert(!is_short_node(n));
    if n.block.len() == 1 {
        lemma_one_item_print(n.block, (depth + 1) as nat, ind, le, sc);
    }
}

/// A block of one item is printed as that item
proof fn lemma_one_item_print(v: Seq<SpecNodeItem>, depth: nat, ind: Seq<char>, le: Seq<char>, sc: Option<bool>)
    requires
        v.len() == 1,
    ensures
        node_items_print(v, depth, ind, le, sc) == node_item_print(v[0], depth, ind, le, sc),
{
    assert(v.drop_last() =~= Seq::<SpecNodeItem>::empty());
    assert(node_items_print(v.drop_last(), depth, ind, le, sc) == Seq::<char>::empty());
    assert(Seq::<char>::empty() + node_item_print(v[0], depth, ind, le, sc) =~= node_item_print(v[0], depth, ind, le, sc));
}

/// How an item of a block is printed at nesting depth `depth`
pub open spec fn node_item_print(x: SpecNodeItem, depth: nat, ind: Seq<char>, le: Seq<char>, sc: Option<bool>) -> Seq<char>
    decreases x,
{
    match x {
        SpecNodeItem::Node(n) => node_print(n.inner, depth, ind, le, sc),
        SpecNodeItem::Comment(c) => comment_print(c.inner, depth, ind, le),
        SpecNodeItem::KeyVal(kv) => key_val_print(kv.inner, depth, ind, le),
        SpecNodeItem::EmptyLine => le,
        SpecNodeItem::Error(t) => t.inner,
    }
}

/// The items of a block printed one after the other
pub open spec fn node_items_print(v: Seq<SpecNodeItem>, depth: nat, ind: Seq<char>, le: Seq<char>, sc: Option<bool>) -> Seq<char>
    decreases v,
{
    if v.len() == 0 {
        seq![]
    } else {
        node_items_print(v.drop_last(), depth, ind, le, sc) + node_item_print(v.last(), depth, ind, le, sc)
    }
}

/// How deep blocks nest inside a node, the node's own block counted
pub open spec fn node_nesting(n: SpecNode) -> nat
    decreases n,
{
    1 + items_nesting(n.block)
}

/// How deep blocks nest inside an item
pub open spec fn item_nesting(x: SpecNodeItem) -> nat
    decreases x,
{
    match x {
        SpecNodeItem::Node(n) => node_nesting(n.inner),
        _ => 0,
    }
}

/// How deep blocks nest inside the items of a block
pub open spec fn items_nesting(v: Seq<SpecNodeItem>) -> nat
    decreases v,
{
    if v.len() == 0 {
        0
    } else {
        let a = items_nesting(v.drop_last());
        let b = item_nesting(v.last());
        if a < b {
            b
        } else {
            a
        }
    }
}

/// A block nests at least as deep as each of its items
pub proof fn lemma_items_nesting(v: Seq<SpecNodeItem>, k: int)
    requires
        0 <= k < v.len(),
    ensures
        item_nesting(v[k]) <= items_nesting(v),
    decreases v.len(),
{
    if k < v.len() - 1 {
        lemma_items_nesting(v.drop_last(), k);
    }
}

/// The nesting of items with one more item
pub proof fn lemma_items_nesting_push(v: Seq<SpecNodeItem>, x: SpecNodeItem)
    ensures
        items_nesting(v.push(x)) == if items_nesting(v) < item_nesting(x) {
            item_nesting(x)
        } else {
            items_nesting(v)
        },
{
    assert(v.push(x).drop_last() =~= v);
}

/// The path after `#`, and the operator, as written before a node's identifier
fn path_operator_text(path: &Option<Ranged<Path>>, operator: &Option<Ranged<Operator>>) -> (r: String)
    ensures
        r@ == (match opt_view(*path) {
            Some(p) => seq!['#'] + path_text(p.inner),
            None => seq![],
        }) + (match *operator {
            Some(o) => operator_text(o.inner),
            None => seq![],
        }),
{
    let mut r = String::new();
    match path {
        Some(p) => {
            push_char(&mut r, '#');
            let t = p.inner.to_string();
            r.append(t.as_str());
        },
        None => {},
    }
    let ghost head = r@;
    match operator {
        Some(o) => {
            let t = o.inner.to_string();
            r.append(t.as_str());
        },
        None => {},
    }
    assert(r@ =~= (match opt_view(*path) {
        Some(p) => seq!['#'] + path_text(p.inner),
        None => seq![],
    }) + (match *operator {
        Some(o) => operator_text(o.inner),
        None => seq![],
    }));
    r
}

fn append_comment_text(r: &mut String, c: &Option<Ranged<Comment>>)
    ensures
        final(r)@ == old(r)@ + comment_text(opt_view(*c)),
{
    match c {
        Some(c) => r.append(c.inner.text.as_str()),
        None => {
            assert(old(r)@ + seq![] =~= old(r)@);
        },
    }
}

impl Node {
    /// Indicates if a node is a top-level node or not
    pub fn top_level(&self) -> (r: bool)
        ensures
            r == self.top_level,
    {
        self.top_level
    }

    /// How the node's identifier line is written
    #[verifier::spinoff_prover]
    #[verifier::rlimit(50)]
    pub fn node_name(&self) -> (r: String)
        ensures
            r@ == node_name_text(self@),
    {
        let head = path_operator_text(&self.path, &self.operator);
        let names = self.names_text();
        let tail = self.blocks_text();
        let mut r = head;
        r.append(self.identifier.inner.as_str());
        r.append(names.as_str());
        r.append(tail.as_str());
        r
    }

    /// The names, between brackets, or nothing
    fn names_text(&self) -> (r: String)
        ensures
            r@ == (match self@.name {
                Some(nm) => seq!['['] + names_joined(nm.inner) + seq![']'],
                None => seq![],
            }),
    {
        let mut r = String::new();
        match &self.name {
            Some(nm) => {
                push_char(&mut r, '[');
                let t = join_names(&nm.inner);
                r.append(t.as_str());
                push_char(&mut r, ']');
            },
            None => {},
        }
        assert(r@ =~= (match self@.name {
            Some(nm) => seq!['['] + names_joined(nm.inner) + seq![']'],
            None => seq![],
        }));
        r
    }

    /// The HAS block, pass, NEEDS block and index, as written on the identifier line
    fn blocks_text(&self) -> (r: String)
        ensures
            r@ == (match self@.has {
                Some(h) => has_block_text(h.inner),
                None => seq![],
            }) + (match self@.pass {
                Some(p) => pass_text(p.inner),
                None => seq![],
            }) + (match self@.needs {
                Some(x) => needs_text(x.inner),
                None => seq![],
            }) + (match self@.index {
                Some(x) => index_text(x.inner),
                None => seq![],
            }),
    {
        let h = match &self.has {
            Some(h) => h.inner.to_string(),
            None => String::new(),
        };
        let p = match &self.pass {
            Some(p) => p.inner.to_string(),
            None => String::new(),
        };
        let n = match &self.needs {
            Some(x) => x.inner.to_string(),
            None => String::new(),
        };
        let x = match &self.index {
            Some(x) => x.inner.to_string(),
            None => String::new(),
        };
        let mut r = h;
        r.append(p.as_str());
        r.append(n.as_str());
        r.append(x.as_str());
        r
    }

    /// Whether the node, with one item, is written on one line under the setting
    fn collapses(&self, should_collapse: Option<bool>) -> (r: bool)
        ensures
            r == collapse(should_collapse, self@),
    {
        proof {
            lemma_node_items_view(self.block@);
        }
        match should_collapse {
            Some(b) => b,
            None => {
                if self.block.len() == 0 {
                    return false;
                }
                match &self.block[0] {
                    NodeItem::KeyVal(kv) => kv.range.start.line == self.identifier.range.start.line,
                    _ => false,
                }
            },
        }
    }

}

/// A node is printed at nesting depth `depth`: its comments, its name, and its block
impl ASTPrint for Node {
    open spec fn print_nesting(&self) -> nat {
        node_nesting(self@)
    }

    open spec fn printed(&self, depth: nat, indentation: Seq<char>, line_ending: Seq<char>, should_collapse: Option<bool>) -> Seq<char> {
        node_print(self@, depth, indentation, line_ending, should_collapse)
    }

    fn ast_print(&self, depth: usize, indentation: &str, line_ending: &str, should_collapse: Option<bool>) -> (r: String)
        decreases self,
    {
        proof {
            lemma_node_items_view(self.block@);
        }
        let ghost n = self@;
        let mut output = print_comments(&self.comments_after_newline, depth, indentation, line_ending);
        let pad = repeat_str(indentation, depth);
        let name = self.node_name();
        let rest = if self.block.len() == 0 && self.id_comment.is_none() {
            let mut r = String::new();
            r.append(pad.as_str());
            r.append(name.as_str());
            push_char(&mut r, ' ');
            push_char(&mut r, '{');
            push_char(&mut r, '}');
            append_comment_text(&mut r, &self.trailing_comment);
            r.append(line_ending);
            assert(r@ =~= pad@ + name@ + seq![' ', '{', '}'] + comment_text(n.trailing_comment) + line_ending@);
            r
        } else if self.block.len() == 1 && self.collapses(should_collapse) && short_node(self) {
            assert(n.block[0] == self.block@[0]@);
            let item = self.block[0].ast_print(0, indentation, "", should_collapse);
            proof {
                reveal_strlit("");
                assert(""@ =~= Seq::<char>::empty());
            }
            let mut r = String::new();
            r.append(pad.as_str());
            r.append(name.as_str());
            push_char(&mut r, ' ');
            push_char(&mut r, '{');
            push_char(&mut r, ' ');
            r.append(item.as_str());
            push_char(&mut r, ' ');
            push_char(&mut r, '}');
            append_comment_text(&mut r, &self.trailing_comment);
            r.append(line_ending);
            assert(r@ =~= pad@ + name@ + seq![' ', '{', ' '] + item@ + seq![' ', '}'] + comment_text(n.trailing_comment) + line_ending@);
            r
        } else {
            let body = print_items(&self.block, depth + 1, indentation, line_ending, should_collapse);
            let mut r = String::new();
            r.append(pad.as_str());
            r.append(name.as_str());
            append_comment_text(&mut r, &self.id_comment);
            r.append(line_ending);
            r.append(pad.as_str());
            push_char(&mut r, '{');
            r.append(line_ending);
            r.append(body.as_str());
            r.append(pad.as_str());
            push_char(&mut r, '}');
            append_comment_text(&mut r, &self.trailing_comment);
            r.append(line_ending);
            assert(r@ =~= pad@ + name@ + comment_text(n.id_comment) + line_ending@ + pad@ + seq!['{'] + line_ending@ + body@ + pad@ + seq!['}'] + comment_text(n.trailing_comment) + line_ending@);
            r
        };
        output.append(rest.as_str());
        output
    }
}

/// Comments, each on a line of its own at nesting depth `depth`
fn print_comments(c: &Vec<Ranged<Comment>>, depth: usize, indentation: &str, line_ending: &str) -> (r: String)
    ensures
        r@ == comments_print(comments_view(c@), depth as nat, indentation@, line_ending@),
{
    let ghost v = comments_view(c@);
    let mut output = String::new();
    let mut k: usize = 0;
    while k < c.len()
        invariant
            k <= c@.len(),
            v == comments_view(c@),
            output@ == comments_print(v.take(k as int), depth as nat, indentation@, line_ending@),
        decreases c.len() - k,
    {
        let t = c[k].inner.ast_print(depth, indentation, line_ending, None);
        output.append(t.as_str());
        assert(v.take(k + 1).drop_last() =~= v.take(k as int));
        k = k + 1;
    }
    assert(v.take(k as int) =~= v);
    output
}

/// The items of a block, printed one after the other at nesting depth `depth`
fn print_items(items: &Vec<NodeItem>, depth: usize, indentation: &str, line_ending: &str, should_collapse: Option<bool>) -> (r: String)
    requires
        depth + items_nesting(node_items_view(items@)) <= usize::MAX,
    ensures
        r@ == node_items_print(node_items_view(items@), depth as nat, indentation@, line_ending@, should_collapse),
    decreases items,
{
    proof {
        lemma_node_items_view(items@);
    }
    let ghost v = node_items_view(items@);
    let mut body = String::new();
    let mut j: usize = 0;
    while j < items.len()
        invariant
            j <= items@.len(),
            v == items@.map_values(|x: NodeItem| x@),
            depth + items_nesting(v) <= usize::MAX,
            body@ == node_items_print(v.take(j as int), depth as nat, indentation@, line_ending@, should_collapse),
        decreases items.len() - j,
    {
        proof {
            lemma_items_nesting(v, j as int);
        }
        let t = items[j].ast_print(depth, indentation, line_ending, should_collapse);
        body.append(t.as_str());
        assert(v.take(j + 1).drop_last() =~= v.take(j as int));
        j = j + 1;
    }
    assert(v.take(j as int) =~= v);
    body
}

/// An item of a block is printed at nesting depth `depth`
impl ASTPrint for NodeItem {
    open spec fn print_nesting(&self) -> nat {
        item_nesting(self@)
    }

    open spec fn printed(&self, depth: nat, indentation: Seq<char>, line_ending: Seq<char>, should_collapse: Option<bool>) -> Seq<char> {
        node_item_print(self@, depth, indentation, line_ending, should_collapse)
    }

    fn ast_print(&self, depth: usize, indentation: &str, line_ending: &str, should_collapse: Option<bool>) -> (r: String)
        decreases self,
    {
        match self {
            NodeItem::Node(n) => n.inner.ast_print(depth, indentation, line_ending, should_collapse),
            NodeItem::Comment(c) => c.inner.ast_print(depth, indentation, line_ending, should_collapse),
            NodeItem::KeyVal(kv) => kv.inner.ast_print(depth, indentation, line_ending, should_collapse),
            NodeItem::EmptyLine => String::from_str(line_ending),
            NodeItem::Error(t) => t.inner.clone(),
        }
    }
}

/// The names written one after the other, separated by `|`
fn join_names(names: &Vec<String>) -> (r: String)
    ensures
        r@ == names_joined(strings_view(names@)),
{
    let ghost v = strings_view(names@);
    let mut r = String::new();
    let mut k: usize = 0;
    while k < names.len()
        invariant
            k <= names@.len(),
            v == strings_view(names@),
            r@ == names_joined(v.take(k as int)),
        decreases names.len() - k,
    {
        if k > 0 {
            push_char(&mut r, '|');
        }
        r.append(names[k].as_str());
        assert(v.take(k + 1).drop_last() =~= v.take(k as int));
        k = k + 1;
    }
    assert(v.take(k as int) =~= v);
    r
}

/// Whether the node is short enough to be written on one line with its one item
fn short_node(arg: &Node) -> (r: bool)
    ensures
        r == is_short_node(arg@),
{
    proof {
        lemma_node_items_view(arg.block@);
    }
    if arg.id_comment.is_some() || arg.block.len() == 0 {
        return false;
    }
    let kv = match &arg.block[0] {
        NodeItem::KeyVal(kv) => kv,
        _ => {
            return false;
        },
    };
    if kv.inner.comment.is_some() {
        return false;
    }
    let ghost n = arg@;
    let ghost kvv = kv.inner@;
    assert(n.block[0] == SpecNodeItem::KeyVal(kv@));
    let parts = node_length_parts(arg, &kv.inner);
    sum_at_most(&parts, 65)
}

/// Whether the lengths add up to at most `limit`
fn sum_at_most(parts: &Vec<usize>, limit: usize) -> (r: bool)
    requires
        limit <= 1000,
    ensures
        r == (sum_of(parts@) <= limit),
{
    let mut len: usize = 0;
    let mut k: usize = 0;
    while k < parts.len()
        invariant
            k <= parts@.len(),
            limit <= 1000,
            len <= limit,
            len == sum_of(parts@.take(k as int)),
        decreases parts.len() - k,
    {
        assert(parts@.take(k + 1).drop_last() =~= parts@.take(k as int));
        assert(sum_of(parts@.take(k + 1)) == sum_of(parts@.take(k as int)) + parts@[k as int]);
        proof {
            lemma_sum_of_take_le(parts@, k + 1);
        }
        if parts[k] > limit {
            return false;
        }
        len = len + parts[k];
        if len > limit {
            return false;
        }
        k = k + 1;
    }
    assert(parts@.take(k as int) =~= parts@);
    true
}

/// The sum of a sequence of lengths
pub open spec fn sum_of(v: Seq<usize>) -> int
    decreases v.len(),
{
    if v.len() == 0 {
        0
    } else {
        sum_of(v.drop_last()) + v.last()
    }
}

proof fn lemma_sum_of_take_le(v: Seq<usize>, k: int)
    requires
        0 <= k <= v.len(),
    ensures
        sum_of(v.take(k)) <= sum_of(v),
    decreases v.len(),
{
    if k < v.len() {
        assert(v.drop_last().take(k) =~= v.take(k));
        lemma_sum_of_take_le(v.drop_last(), k);
    } else {
        assert(v.take(k) =~= v);
    }
}

fn push_len(parts: &mut Vec<usize>, x: usize)
    ensures
        final(parts)@ == old(parts)@.push(x),
        sum_of(final(parts)@) == sum_of(old(parts)@) + x,
{
    parts.push(x);
    assert(parts@.drop_last() =~= old(parts)@);
}

fn str_len(s: &String) -> (r: usize)
    ensures
        r == s@.len(),
{
    s.as_str().unicode_len()
}

/// The lengths that make up a node written on one line with the given item, besides the braces
fn node_length_parts(arg: &Node, kv: &KeyVal) -> (r: Vec<usize>)
    ensures
        7 + sum_of(r@) == one_line_len(arg@, kv@),
{
    let ghost n = arg@;
    let ghost kvv = kv@;
    let mut parts: Vec<usize> = Vec::new();
    match &arg.path {
        Some(p) => push_len(&mut parts, str_len(&p.inner.to_string())),
        None => push_len(&mut parts, 0),
    }
    match &arg.operator {
        Some(o) => push_len(&mut parts, str_len(&o.inner.to_string())),
        None => push_len(&mut parts, 0),
    }
    push_len(&mut parts, str_len(&arg.identifier.inner));
    let ghost before_names = sum_of(parts@);
    match &arg.name {
        Some(nm) => {
            let names = &nm.inner;
            let ghost v = strings_view(names@);
            let mut k: usize = 0;
            while k < names.len()
                invariant
                    k <= names@.len(),
                    v == strings_view(names@),
                    sum_of(parts@) == before_names + names_len(v.take(k as int)),
                decreases names.len() - k,
            {
                push_len(&mut parts, str_len(&names[k]));
                assert(v.take(k + 1).drop_last() =~= v.take(k as int));
                k = k + 1;
            }
            assert(v.take(k as int) =~= v);
        },
        None => {},
    }
    match &arg.has {
        Some(h) => push_len(&mut parts, str_len(&h.inner.to_string())),
        None => push_len(&mut parts, 0),
    }
    match &arg.needs {
        Some(x) => push_len(&mut parts, str_len(&x.inner.to_string())),
        None => push_len(&mut parts, 0),
    }
    match &arg.pass {
        Some(p) => push_len(&mut parts, str_len(&p.inner.to_string())),
        None => push_len(&mut parts, 0),
    }
    match &arg.index {
        Some(x) => push_len(&mut parts, str_len(&x.inner.to_string())),
        None => push_len(&mut parts, 0),
    }
    push_len(&mut parts, if kv.operator.is_some() { 1 } else { 0 });
    push_len(&mut parts, str_len(&kv.key.inner));
    push_len(&mut parts, str_len(&kv.assignment_operator.inner.to_string()));
    push_len(&mut parts, str_len(&kv.val.inner));
    parts
}

/// The nodes among the items of a block, in order
pub open spec fn block_nodes(v: Seq<SpecNodeItem>) -> Seq<Ranged<SpecNode>>
    decreases v.len(),
{
    if v.len() == 0 {
        seq![]
    } else {
        block_nodes(v.drop_last()) + match v.last() {
            SpecNodeItem::Node(n) => seq![n],
            _ => seq![],
        }
    }
}

/// The assignments among the items of a block, in order
pub open spec fn block_key_vals(v: Seq<SpecNodeItem>) -> Seq<Ranged<SpecKeyVal>>
    decreases v.len(),
{
    if v.len() == 0 {
        seq![]
    } else {
        block_key_vals(v.drop_last()) + match v.last() {
            SpecNodeItem::KeyVal(kv) => seq![kv],
            _ => seq![],
        }
    }
}

impl Node {
    /// All of the nodes contained within this node, in order
    pub fn iter_nodes(&self) -> (r: Vec<&Ranged<Node>>)
        ensures
            r@.map_values(|x: &Ranged<Node>| x@) == block_nodes(self@.block),
    {
        proof {
            lemma_node_items_view(self.block@);
        }
        let ghost v = self@.block;
        let mut r: Vec<&Ranged<Node>> = Vec::new();
        let mut k: usize = 0;
        while k < self.block.len()
            invariant
                k <= self.block@.len(),
                v == self.block@.map_values(|x: NodeItem| x@),
                r@.map_values(|x: &Ranged<Node>| x@) == block_nodes(v.take(k as int)),
            decreases self.block.len() - k,
        {
            let ghost old = r@;
            assert(v.take(k + 1).drop_last() =~= v.take(k as int));
            assert(v.take(k + 1).last() == self.block@[k as int]@);
            match &self.block[k] {
                NodeItem::Node(n) => {
                    r.push(n);
                    assert(r@.map_values(|x: &Ranged<Node>| x@) =~= old.map_values(|x: &Ranged<Node>| x@) + seq![n@]);
                },
                _ => {
                    assert(r@.map_values(|x: &Ranged<Node>| x@) =~= old.map_values(|x: &Ranged<Node>| x@) + Seq::<Ranged<SpecNode>>::empty());
                },
            }
            k = k + 1;
        }
        assert(v.take(k as int) =~= v);
        r
    }

    /// All of the assignments contained within this node, in order
    pub fn iter_keyvals(&self) -> (r: Vec<&Ranged<KeyVal>>)
        ensures
            r@.map_values(|x: &Ranged<KeyVal>| x@) == block_key_vals(self@.block),
    {
        proof {
            lemma_node_items_view(self.block@);
        }
        let ghost v = self@.block;
        let mut r: Vec<&Ranged<KeyVal>> = Vec::new();
        let mut k: usize = 0;
        while k < self.block.len()
            invariant
                k <= self.block@.len(),
                v == self.block@.map_values(|x: NodeItem| x@),
                r@.map_values(|x: &Ranged<KeyVal>| x@) == block_key_vals(v.take(k as int)),
            decreases self.block.len() - k,
        {
            let ghost old = r@;
            assert(v.take(k + 1).drop_last() =~= v.take(k as int));
            assert(v.take(k + 1).last() == self.block@[k as int]@);
            match &self.block[k] {
                NodeItem::KeyVal(kv) => {
                    r.push(kv);
                    assert(r@.map_values(|x: &Ranged<KeyVal>| x@) =~= old.map_values(|x: &Ranged<KeyVal>| x@) + seq![kv@]);
                },
                _ => {
                    assert(r@.map_values(|x: &Ranged<KeyVal>| x@) =~= old.map_values(|x: &Ranged<KeyVal>| x@) + Seq::<Ranged<SpecKeyVal>>::empty());
                },
            }
            k = k + 1;
        }
        assert(v.take(k as int) =~= v);
        r
    }
}

/// Nodes inside the item, at any depth, are not marked as top-level
pub open spec fn item_not_top(x: SpecNodeItem) -> bool
    decreases x,
{
    match x {
        SpecNodeItem::Node(n) => !n.inner.top_level && items_not_top(n.inner.block),
        _ => true,
    }
}

/// Nodes among and inside the items, at any depth, are not marked as top-level
pub open spec fn items_not_top(v: Seq<SpecNodeItem>) -> bool
    decreases v,
{
    if v.len() == 0 {
        true
    } else {
        items_not_top(v.drop_last()) && item_not_top(v.last())
    }
}

/// No item is a line that could not be read, among the items or inside their nodes
pub open spec fn item_clean(x: SpecNodeItem) -> bool
    decreases x,
{
    match x {
        SpecNodeItem::Node(n) => items_clean(n.inner.block),
        SpecNodeItem::Error(_) => false,
        _ => true,
    }
}

/// No item is a line that could not be read, among the items or inside their nodes
pub open spec fn items_clean(v: Seq<SpecNodeItem>) -> bool
    decreases v,
{
    if v.len() == 0 {
        true
    } else {
        items_clean(v.drop_last()) && item_clean(v.last())
    }
}

/// Items with one more in front are clean when that item and the rest are
proof fn lemma_items_clean_cons(x: SpecNodeItem, rest: Seq<SpecNodeItem>)
    ensures
        items_clean(seq![x] + rest) == (item_clean(x) && items_clean(rest)),
    decreases rest.len(),
{
    if rest.len() == 0 {
        assert(seq![x] + rest =~= seq![x]);
        assert(seq![x].drop_last() =~= Seq::<SpecNodeItem>::empty());
        assert(seq![x].last() == x);
        assert(items_clean(seq![x]) == (items_clean(Seq::<SpecNodeItem>::empty()) && item_clean(x)));
    } else {
        lemma_items_clean_cons(x, rest.drop_last());
        assert((seq![x] + rest).drop_last() =~= seq![x] + rest.drop_last());
        assert((seq![x] + rest).last() == rest.last());
    }
}

/// A node read without errors holds no line that could not be read
pub proof fn lemma_node_clean(s: Seq<char>, i: int, e: int, top_level: bool)
    ensures
        sp_node(s, i, e, top_level) matches SParsed::Done(_, n, errs) ==> (errs.len() == 0 ==> items_clean(
            n.inner.block,
        )),
    decreases e - i, 1int,
{
    if let Some(p) = ident_stop(s, i, e) {
        let d = ident_tail(s, p, e);
        let b = skip_spaces(s, opt_line_ending(s, d, e), e);
        if i <= b <= e {
            if let SParsed::Done(q, items, block_errs) = sp_block(s, b, e) {
                lemma_block_clean(s, b, e);
                if let Some((id, id_errs)) = sp_dumb_identifier(s, i, d) {
                    assert((block_errs + id_errs).len() == block_errs.len() + id_errs.len());
                }
            }
        }
    }
}

/// A block read without errors holds no line that could not be read
pub proof fn lemma_block_clean(s: Seq<char>, b: int, e: int)
    ensures
        sp_block(s, b, e) matches SParsed::Done(_, items, errs) ==> (errs.len() == 0 ==> items_clean(items)),
    decreases e - b, 0int,
{
    if 0 <= b < e && s[b] == '{' {
        let m = skip_multispace(s, b + 1, e);
        if b < m <= e {
            lemma_items_clean(s, m, e);
            if let Some((items, q, errs)) = sp_items(s, m, e) {
                let t = skip_multispace(s, q, e);
                let (end, errs2) = if 0 <= t < e && s[t] == '}' {
                    (t + 1, Seq::<SpecError>::empty())
                } else {
                    (t, seq![expect_error(s, t, e, "Expected closing }"@)])
                };
                assert((errs + errs2).len() == errs.len() + errs2.len());
            }
        }
    }
}

/// An item read without errors is not a line that could not be read, and holds none
pub proof fn lemma_item_clean(s: Seq<char>, p: int, e: int)
    ensures
        sp_item(s, p, e) matches SpecItemStep::Item(x, _, errs) ==> (errs.len() == 0 ==> item_clean(x)),
    decreases e - p, 2int,
{
    let a = skip_spaces(s, p, e);
    if comment_end(s, a, e) is None && empty_line_end(s, a, e) is None && sp_key_val(s, a, e) is Failed
        && p <= a <= e {
        lemma_node_clean(s, a, e, false);
    }
}

/// Items read without errors hold no line that could not be read
pub proof fn lemma_items_clean(s: Seq<char>, p: int, e: int)
    ensures
        sp_items(s, p, e) matches Some((items, _, errs)) ==> (errs.len() == 0 ==> items_clean(items)),
    decreases e - p, 3int,
{
    lemma_item_clean(s, p, e);
    match sp_item(s, p, e) {
        SpecItemStep::Item(x, q, errs) => if p < q <= e {
            lemma_items_clean(s, q, e);
            if let Some((rest, end, errs2)) = sp_items(s, q, e) {
                lemma_items_clean_cons(x, rest);
                assert((errs + errs2).len() == errs.len() + errs2.len());
            }
        } else {
            assert(items_clean(Seq::<SpecNodeItem>::empty()));
        },
        _ => {
            assert(items_clean(Seq::<SpecNodeItem>::empty()));
        },
    }
}

} // verus!
