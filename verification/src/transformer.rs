//! Transformations of a parsed document: assignments first in every block.
use vstd::prelude::*;
use vstd::string::*;
use crate::parser::{DocItem, Document, Error, Node, NodeItem, Position, Range, Ranged, Severity, SpecError};
use crate::parser::document::SpecDocItem;
use crate::parser::node::{
    SpecNode, SpecNodeItem, block_key_vals, block_nodes, item_nesting, items_nesting, lemma_items_nesting,
    lemma_node_items_view, node_items_view, node_nesting,
};

verus! {

/// The message for a comment or an empty line at the end of a block, which has no item to stay
/// with
pub open spec fn dangling_message(x: SpecNodeItem) -> Seq<char> {
    match x {
        SpecNodeItem::Comment(_) => "Found Comment at end of node"@,
        _ => "Found Empty Line at end of node"@,
    }
}

/// Sorts the items of a block from the last one back: assignments, and the comments and empty
/// lines that come before them, go to the first list; nodes (themselves sorted), and the comments
/// and empty lines before them, to the second. `keys_next` says what the item after these is:
/// an assignment (`Some(true)`), a node (`Some(false)`) or nothing (`None`). A comment or empty
/// line with nothing after it is an error.
pub open spec fn reorder_items(v: Seq<SpecNodeItem>, keys_next: Option<bool>) -> Result<(Seq<SpecNodeItem>, Seq<SpecNodeItem>), Seq<char>>
    decreases v,
{
    if v.len() == 0 {
        Ok((seq![], seq![]))
    } else {
        let x = v.last();
        match x {
            SpecNodeItem::Node(n) => match reorder_node(n.inner) {
                Err(m) => Err(m),
                Ok(n2) => match reorder_items(v.drop_last(), Some(false)) {
                    Err(m) => Err(m),
                    Ok((k, ns)) => Ok((k, ns.push(SpecNodeItem::Node(Ranged { inner: n2, range: n.range })))),
                },
            },
            SpecNodeItem::KeyVal(_) => match reorder_items(v.drop_last(), Some(true)) {
                Err(m) => Err(m),
                Ok((k, ns)) => Ok((k.push(x), ns)),
            },
            SpecNodeItem::Error(_) => Err(seq![]),
            _ => match keys_next {
                None => Err(dangling_message(x)),
                Some(true) => match reorder_items(v.drop_last(), Some(true)) {
                    Err(m) => Err(m),
                    Ok((k, ns)) => Ok((k.push(x), ns)),
                },
                Some(false) => match reorder_items(v.drop_last(), Some(false)) {
                    Err(m) => Err(m),
                    Ok((k, ns)) => Ok((k, ns.push(x))),
                },
            },
        }
    }
}

/// A node with the items of its block, and of the blocks inside, sorted: assignments first, then
/// nodes
pub open spec fn reorder_node(n: SpecNode) -> Result<SpecNode, Seq<char>>
    decreases n,
{
    match reorder_items(n.block, None) {
        Err(m) => Err(m),
        Ok((k, ns)) => Ok(SpecNode { block: k + ns, ..n }),
    }
}

/// The statements of a document with every node sorted; the first error stops it
pub open spec fn reorder_doc(v: Seq<SpecDocItem>) -> Result<Seq<SpecDocItem>, Seq<char>>
    decreases v.len(),
{
    if v.len() == 0 {
        Ok(seq![])
    } else {
        match reorder_doc(v.drop_last()) {
            Err(m) => Err(m),
            Ok(prefix) => match v.last() {
                SpecDocItem::Node(n) => match reorder_node(n.inner) {
                    Err(m) => Err(m),
                    Ok(n2) => Ok(prefix.push(SpecDocItem::Node(Ranged { inner: n2, range: n.range }))),
                },
                other => Ok(prefix.push(other)),
            },
        }
    }
}

/// Sorting a document keeps its statements where they are: as many statements, a node where
/// there was a node (with its range), and every other statement as it was
pub proof fn lemma_reorder_doc_keeps_statements(v: Seq<SpecDocItem>)
    ensures
        reorder_doc(v) matches Ok(w) ==> {
            &&& w.len() == v.len()
            &&& forall|i: int| 0 <= i < v.len() ==> (#[trigger] w[i] is Node) == (v[i] is Node)
            &&& forall|i: int| 0 <= i < v.len() && !(v[i] is Node) ==> #[trigger] w[i] == v[i]
            &&& forall|i: int| 0 <= i < v.len() && v[i] is Node ==> (#[trigger] w[i])->Node_0.range == v[i]->Node_0.range
        },
    decreases v.len(),
{
    if v.len() > 0 {
        let d = v.drop_last();
        lemma_reorder_doc_keeps_statements(d);
        if let Ok(w) = reorder_doc(v) {
            let prefix = reorder_doc(d)->Ok_0;
            assert(w.drop_last() == prefix);
            assert forall|i: int| 0 <= i < d.len() implies w[i] == prefix[i] && v[i] == d[i] by {}
        }
    }
}

/// There is no unreadable line in the item, at any depth
pub open spec fn item_no_errors(x: SpecNodeItem) -> bool
    decreases x,
{
    match x {
        SpecNodeItem::Node(n) => items_no_errors(n.inner.block),
        SpecNodeItem::Error(_) => false,
        _ => true,
    }
}

/// There is no unreadable line among or inside the items
pub open spec fn items_no_errors(v: Seq<SpecNodeItem>) -> bool
    decreases v,
{
    if v.len() == 0 {
        true
    } else {
        items_no_errors(v.drop_last()) && item_no_errors(v.last())
    }
}

/// There is no unreadable line inside the document's nodes
pub open spec fn doc_no_errors(v: Seq<SpecDocItem>) -> bool
    decreases v.len(),
{
    if v.len() == 0 {
        true
    } else {
        doc_no_errors(v.drop_last()) && match v.last() {
            SpecDocItem::Node(n) => items_no_errors(n.inner.block),
            _ => true,
        }
    }
}

/// The error for a comment or empty line at the end of a block
pub open spec fn reorder_error(message: Seq<char>) -> SpecError {
    SpecError {
        severity: Severity::Info,
        range: Range { start: Position { line: 0, col: 0 }, end: Position { line: 0, col: 0 } },
        source: seq![],
        message,
        context: None,
    }
}

fn make_reorder_error(message: &str) -> (r: Error)
    ensures
        r@ == reorder_error(message@),
{
    Error { severity: Severity::Info, range: Range::new(0, 0, 0, 0), source: String::new(), message: String::from_str(message), context: None }
}

/// Sorts the items of the node's block, and of the blocks inside it: assignments first, each
/// with the comments and empty lines before it, then nodes, likewise
fn reorder_node_items(node: Ranged<Node>) -> (r: Result<Ranged<Node>, Error>)
    requires
        items_no_errors(node.inner@.block),
    ensures
        match reorder_node(node.inner@) {
            Ok(n2) => r matches Ok(x) && x.inner@ == n2 && x.range == node.range,
            Err(m) => r matches Err(e) && e@ == reorder_error(m),
        },
    decreases node_nesting(node.inner@),
{
    let ghost orig = node.inner@;
    let ghost orig_range = node.range;
    let mut work = node;
    let mut items: Vec<NodeItem> = Vec::new();
    std::mem::swap(&mut items, &mut work.inner.block);
    proof {
        lemma_node_items_view(items@);
    }
    let mut keys: Vec<NodeItem> = Vec::new();
    let mut nodes: Vec<NodeItem> = Vec::new();
    let mut keys_next: Option<bool> = None;
    assert(node_items_view(keys@) =~= Seq::<SpecNodeItem>::empty());
    assert(node_items_view(nodes@) =~= Seq::<SpecNodeItem>::empty());
    while items.len() > 0
        invariant
            orig.block.len() >= items@.len(),
            node_items_view(items@) == orig.block.take(items@.len() as int),
            items_no_errors(node_items_view(items@)),
            items_nesting(node_items_view(items@)) <= items_nesting(orig.block),
            work.inner@ == (SpecNode { block: seq![], ..orig }),
            work.range == orig_range,
            orig == node.inner@,
            reorder_items(orig.block, None) == (match reorder_items(node_items_view(items@), keys_next) {
                Err(m) => Err(m),
                Ok((k, ns)) => Ok((k + node_items_view(keys@), ns + node_items_view(nodes@))),
            }),
        decreases items.len(),
    {
        let ghost before = items@;
        let ghost bv = node_items_view(before);
        let x = items.pop().unwrap();
        proof {
            assert(before.drop_last() == items@);
            assert(bv.drop_last() =~= node_items_view(items@)) by {
                lemma_node_items_view(before);
                lemma_node_items_view(items@);
            }
            assert(bv.last() == x@) by {
                lemma_node_items_view(before);
            }
            assert(node_items_view(items@) =~= orig.block.take(items@.len() as int)) by {
                assert(orig.block.take(items@.len() as int) =~= orig.block.take(before.len() as int).drop_last());
            }
            assert(items_no_errors(node_items_view(items@)) && item_no_errors(x@));
            lemma_items_nesting(bv, bv.len() - 1);
            assert(items_nesting(bv.drop_last()) <= items_nesting(bv));
        }
        match x {
            NodeItem::Node(n) => {
                let ghost nv = n@;
                assert(item_nesting(bv.last()) == node_nesting(nv.inner));
                let n2 = match reorder_node_items(n) {
                    Ok(n2) => n2,
                    Err(e) => {
                        return Err(e);
                    },
                };
                let ghost old_nodes = nodes@;
                nodes.insert(0, NodeItem::Node(n2));
                proof {
                    assert(nodes@ == seq![NodeItem::Node(n2)] + old_nodes);
                    assert(node_items_view(nodes@) =~= seq![SpecNodeItem::Node(n2@)] + node_items_view(old_nodes)) by {
                        lemma_node_items_view(nodes@);
                        lemma_node_items_view(old_nodes);
                    }
                    match reorder_items(node_items_view(items@), Some(false)) {
                        Ok((k, ns)) => {
                            assert(ns.push(SpecNodeItem::Node(n2@)) + node_items_view(old_nodes) =~= ns + node_items_view(nodes@));
                        },
                        Err(_) => {},
                    }
                }
                keys_next = Some(false);
            },
            NodeItem::KeyVal(kv) => {
                let ghost old_keys = keys@;
                let item = NodeItem::KeyVal(kv);
                let ghost iv = item@;
                keys.insert(0, item);
                proof {
                    assert(node_items_view(keys@) =~= seq![iv] + node_items_view(old_keys)) by {
                        lemma_node_items_view(keys@);
                        lemma_node_items_view(old_keys);
                    }
                    match reorder_items(node_items_view(items@), Some(true)) {
                        Ok((k, ns)) => {
                            assert(k.push(iv) + node_items_view(old_keys) =~= k + node_items_view(keys@));
                        },
                        Err(_) => {},
                    }
                }
                keys_next = Some(true);
            },
            NodeItem::Error(_) => {
                assert(false);
                return Err(make_reorder_error(""));
            },
            other => {
                let ghost ov = other@;
                let is_comment = match &other {
                    NodeItem::Comment(_) => true,
                    _ => false,
                };
                match keys_next {
                    None => {
                        if is_comment {
                            return Err(make_reorder_error("Found Comment at end of node"));
                        } else {
                            assert(ov is EmptyLine);
                            return Err(make_reorder_error("Found Empty Line at end of node"));
                        }
                    },
                    Some(true) => {
                        let ghost old_keys = keys@;
                        keys.insert(0, other);
                        proof {
                            assert(node_items_view(keys@) =~= seq![ov] + node_items_view(old_keys)) by {
                                lemma_node_items_view(keys@);
                                lemma_node_items_view(old_keys);
                            }
                            match reorder_items(node_items_view(items@), Some(true)) {
                                Ok((k, ns)) => {
                                    assert(k.push(ov) + node_items_view(old_keys) =~= k + node_items_view(keys@));
                                },
                                Err(_) => {},
                            }
                        }
                    },
                    Some(false) => {
                        let ghost old_nodes = nodes@;
                        nodes.insert(0, other);
                        proof {
                            assert(node_items_view(nodes@) =~= seq![ov] + node_items_view(old_nodes)) by {
                                lemma_node_items_view(nodes@);
                                lemma_node_items_view(old_nodes);
                            }
                            match reorder_items(node_items_view(items@), Some(false)) {
                                Ok((k, ns)) => {
                                    assert(ns.push(ov) + node_items_view(old_nodes) =~= ns + node_items_view(nodes@));
                                },
                                Err(_) => {},
                            }
                        }
                    },
                }
            },
        }
    }
    proof {
        assert(node_items_view(items@) =~= Seq::<SpecNodeItem>::empty());
    }
    let ghost ks = keys@;
    let ghost ns = nodes@;
    let ghost kv = node_items_view(keys@);
    let ghost nv = node_items_view(nodes@);
    keys.append(&mut nodes);
    proof {
        lemma_node_items_view(keys@);
        lemma_node_items_view(ks);
        lemma_node_items_view(ns);
        assert(keys@ == ks + ns);
        assert(node_items_view(keys@) =~= kv + nv);
    }
    work.inner.block = keys;
    Ok(work)
}

/// Moves assignments first in every node of the document, and child nodes last, each item
/// with the comments and empty lines before it.
/// A comment or an empty line at the end of a block is an error. The document must hold no
/// unreadable line inside its nodes (the transformation would panic on one).
pub fn assignments_first(doc: Document) -> (r: Result<Document, Error>)
    requires
        doc_no_errors(doc@),
    ensures
        match reorder_doc(doc@) {
            Ok(v) => r matches Ok(d) && d@ == v,
            Err(m) => r matches Err(e) && e@ == reorder_error(m),
        },
        r matches Ok(d) ==> d@.len() == doc@.len(),
        r matches Ok(d) ==> forall|i: int| 0 <= i < doc@.len() && !(doc@[i] is Node) ==> #[trigger] d@[i] == doc@[i],
{
    proof {
        lemma_reorder_doc_keeps_statements(doc@);
    }
    let ghost orig = doc@;
    let mut items = doc.statements;
    let n = items.len();
    assert(orig.len() == n);
    let mut new_items: Vec<DocItem> = Vec::new();
    let mut k: usize = 0;
    assert(new_items@.map_values(|x: DocItem| x@) =~= Seq::<SpecDocItem>::empty());
    while items.len() > 0
        invariant
            k + items@.len() == orig.len(),
            orig == doc@,
            orig.len() <= usize::MAX,
            forall|j: int| 0 <= j < items@.len() ==> #[trigger] items@[j]@ == orig[k + j],
            doc_no_errors(orig),
            reorder_doc(orig.take(k as int)) == Ok::<Seq<SpecDocItem>, Seq<char>>(new_items@.map_values(|x: DocItem| x@)),
        decreases items.len(),
    {
        let ghost before = items@;
        let item = items.remove(0);
        proof {
            assert(item@ == before[0]@);
            assert(item@ == orig[k as int]);
            assert forall|j: int| 0 <= j < items@.len() implies #[trigger] items@[j]@ == orig[k + 1 + j] by {
                assert(items@[j] == before[j + 1]);
            }
            assert(orig.take(k + 1).drop_last() =~= orig.take(k as int));
            assert(orig.take(k + 1).last() == orig[k as int]);
            lemma_doc_no_errors(orig, k as int);
        }
        let ghost old_new = new_items@;
        match item {
            DocItem::Node(node) => {
                let ghost nv = node@;
                match reorder_node_items(node) {
                    Ok(n2) => {
                        let ghost n2v = n2@;
                        new_items.push(DocItem::Node(n2));
                        assert(new_items@.map_values(|x: DocItem| x@) =~= old_new.map_values(|x: DocItem| x@).push(SpecDocItem::Node(n2v)));
                    },
                    Err(e) => {
                        proof {
                            assert(orig.take(k + 1).last() == SpecDocItem::Node(nv));
                            assert(reorder_node(nv.inner) is Err);
                            assert(reorder_doc(orig.take(k + 1)) == Err::<Seq<SpecDocItem>, Seq<char>>(reorder_node(nv.inner)->Err_0));
                            lemma_reorder_doc_err(orig, k as int);
                            assert(reorder_doc(orig) == Err::<Seq<SpecDocItem>, Seq<char>>(reorder_node(nv.inner)->Err_0));
                            assert(e@ == reorder_error(reorder_node(nv.inner)->Err_0));
                        }
                        return Err(e);
                    },
                }
            },
            other => {
                let ghost ov = other@;
                new_items.push(other);
                assert(new_items@.map_values(|x: DocItem| x@) =~= old_new.map_values(|x: DocItem| x@).push(ov));
            },
        }
        k = k + 1;
    }
    assert(orig.take(k as int) =~= orig);
    Ok(Document { statements: new_items })
}

proof fn lemma_doc_no_errors(v: Seq<SpecDocItem>, k: int)
    requires
        0 <= k < v.len(),
        doc_no_errors(v),
    ensures
        v[k] matches SpecDocItem::Node(n) ==> items_no_errors(n.inner.block),
    decreases v.len(),
{
    if k < v.len() - 1 {
        lemma_doc_no_errors(v.drop_last(), k);
    }
}

/// Once a statement fails to be sorted, so does the whole document
proof fn lemma_reorder_doc_err(v: Seq<SpecDocItem>, k: int)
    requires
        0 <= k < v.len(),
        reorder_doc(v.take(k + 1)) is Err,
    ensures
        reorder_doc(v) == reorder_doc(v.take(k + 1)),
    decreases v.len(),
{
    if k + 1 < v.len() {
        assert(v.drop_last().take(k + 1) =~= v.take(k + 1));
        lemma_reorder_doc_err(v.drop_last(), k);
    } else {
        assert(v.take(k + 1) =~= v);
    }
}

/// In the block, no node comes before an assignment
pub open spec fn keys_before_nodes(v: Seq<SpecNodeItem>) -> bool {
    forall|i: int, j: int| 0 <= i < j < v.len() && #[trigger] v[i] is Node ==> !(#[trigger] v[j] is KeyVal)
}

/// The assignments of joined blocks are those of the first, then those of the second
pub proof fn lemma_block_key_vals_add(a: Seq<SpecNodeItem>, b: Seq<SpecNodeItem>)
    ensures
        block_key_vals(a + b) == block_key_vals(a) + block_key_vals(b),
    decreases b.len(),
{
    if b.len() == 0 {
        assert(a + b =~= a);
        assert(block_key_vals(a) + block_key_vals(b) =~= block_key_vals(a));
    } else {
        assert((a + b).drop_last() =~= a + b.drop_last());
        assert((a + b).last() == b.last());
        lemma_block_key_vals_add(a, b.drop_last());
        assert(block_key_vals(a) + block_key_vals(b) =~= block_key_vals(a) + block_key_vals(b.drop_last()) + match b.last() {
            SpecNodeItem::KeyVal(kv) => seq![kv],
            _ => seq![],
        });
    }
}

proof fn lemma_block_key_vals_push(a: Seq<SpecNodeItem>, x: SpecNodeItem)
    ensures
        block_key_vals(a.push(x)) == block_key_vals(a) + match x {
            SpecNodeItem::KeyVal(kv) => seq![kv],
            _ => seq![],
        },
{
    assert(a.push(x).drop_last() =~= a);
}

/// Sorting the items from the end gives a first list without nodes, holding all the assignments
/// in their order, and a second list without assignments, as many items in all as there were
pub proof fn lemma_reorder_items(v: Seq<SpecNodeItem>, keys_next: Option<bool>)
    ensures
        reorder_items(v, keys_next) matches Ok((k, ns)) ==> {
            &&& k.len() + ns.len() == v.len()
            &&& forall|i: int| 0 <= i < k.len() ==> !(#[trigger] k[i] is Node)
            &&& forall|i: int| 0 <= i < ns.len() ==> !(#[trigger] ns[i] is KeyVal)
            &&& block_key_vals(k) == block_key_vals(v)
            &&& block_key_vals(ns) == Seq::<Ranged<crate::parser::key_val::SpecKeyVal>>::empty()
        },
    decreases v.len(),
{
    if v.len() > 0 {
        let x = v.last();
        let rest = v.drop_last();
        lemma_block_key_vals_push(rest, x);
        assert(rest.push(x) =~= v);
        match x {
            SpecNodeItem::Node(n) => {
                lemma_reorder_items(rest, Some(false));
                if let Ok((k, ns)) = reorder_items(v, keys_next) {
                    let n2 = reorder_node(n.inner)->Ok_0;
                    let y = SpecNodeItem::Node(Ranged { inner: n2, range: n.range });
                    let ns0 = reorder_items(rest, Some(false))->Ok_0.1;
                    assert(ns == ns0.push(y));
                    lemma_block_key_vals_push(ns0, y);
                    assert forall|i: int| 0 <= i < ns.len() implies !(#[trigger] ns[i] is KeyVal) by {
                        if i < ns0.len() {
                            assert(ns[i] == ns0[i]);
                        }
                    }
                }
            },
            SpecNodeItem::KeyVal(_) => {
                lemma_reorder_items(rest, Some(true));
                if let Ok((k, ns)) = reorder_items(v, keys_next) {
                    let k0 = reorder_items(rest, Some(true))->Ok_0.0;
                    assert(k == k0.push(x));
                    lemma_block_key_vals_push(k0, x);
                    assert forall|i: int| 0 <= i < k.len() implies !(#[trigger] k[i] is Node) by {
                        if i < k0.len() {
                            assert(k[i] == k0[i]);
                        }
                    }
                }
            },
            SpecNodeItem::Error(_) => {},
            _ => {
                match keys_next {
                    None => {},
                    Some(true) => {
                        lemma_reorder_items(rest, Some(true));
                        if let Ok((k, ns)) = reorder_items(v, keys_next) {
                            let k0 = reorder_items(rest, Some(true))->Ok_0.0;
                            assert(k == k0.push(x));
                            lemma_block_key_vals_push(k0, x);
                            assert forall|i: int| 0 <= i < k.len() implies !(#[trigger] k[i] is Node) by {
                                if i < k0.len() {
                                    assert(k[i] == k0[i]);
                                }
                            }
                        }
                    },
                    Some(false) => {
                        lemma_reorder_items(rest, Some(false));
                        if let Ok((k, ns)) = reorder_items(v, keys_next) {
                            let ns0 = reorder_items(rest, Some(false))->Ok_0.1;
                            assert(ns == ns0.push(x));
                            lemma_block_key_vals_push(ns0, x);
                            assert forall|i: int| 0 <= i < ns.len() implies !(#[trigger] ns[i] is KeyVal) by {
                                if i < ns0.len() {
                                    assert(ns[i] == ns0[i]);
                                }
                            }
                        }
                    },
                }
            },
        }
    }
}

/// Sorting a node puts every assignment of its block before every node of the block, keeps the
/// assignments in the order they were written, and keeps the number of items
pub proof fn lemma_assignments_first(n: SpecNode)
    ensures
        reorder_node(n) matches Ok(n2) ==> {
            &&& keys_before_nodes(n2.block)
            &&& block_key_vals(n2.block) == block_key_vals(n.block)
            &&& n2.block.len() == n.block.len()
        },
{
    lemma_reorder_items(n.block, None);
    if let Ok(n2) = reorder_node(n) {
        let (k, ns) = reorder_items(n.block, None)->Ok_0;
        assert(n2.block == k + ns);
        lemma_block_key_vals_add(k, ns);
        assert(block_key_vals(k) + block_key_vals(ns) =~= block_key_vals(k));
        assert forall|i: int, j: int| 0 <= i < j < n2.block.len() && #[trigger] n2.block[i] is Node implies !(#[trigger] n2.block[j] is KeyVal) by {
            if i < k.len() {
                assert(n2.block[i] == k[i]);
            } else {
                assert(n2.block[j] == ns[j - k.len()]);
            }
        }
    }
}

} // verus!

verus! {

/// The largest of the lengths
pub open spec fn longest(lens: Seq<usize>) -> int
    decreases lens.len(),
{
    if lens.len() == 0 {
        0
    } else if lens.len() == 1 {
        lens[0] as int
    } else if longest(lens.drop_last()) >= lens.last() {
        longest(lens.drop_last())
    } else {
        lens.last() as int
    }
}

/// The longest of the lengths is at least each of them, and is one of them
pub proof fn lemma_longest(lens: Seq<usize>)
    requires
        lens.len() > 0,
    ensures
        forall|i: int| 0 <= i < lens.len() ==> lens[i] <= #[trigger] longest(lens),
        exists|i: int| 0 <= i < lens.len() && lens[i] == longest(lens),
    decreases lens.len(),
{
    if lens.len() == 1 {
        assert(lens[0] == longest(lens));
    } else {
        let d = lens.drop_last();
        lemma_longest(d);
        assert forall|i: int| 0 <= i < lens.len() implies lens[i] <= #[trigger] longest(lens) by {
            if i < d.len() {
                assert(lens[i] == d[i]);
                assert(d[i] <= longest(d));
            }
        }
        if longest(d) >= lens.last() {
            let j = choose|j: int| 0 <= j < d.len() && d[j] == longest(d);
            assert(lens[j] == d[j]);
        } else {
            assert(lens[lens.len() - 1] == longest(lens));
        }
    }
}

/// The padding width of a run is the length of its longest left side: no left side is longer,
/// and one of them has that length. There is a width exactly when the run has at least two
/// assignments and every two neighbours are similar and differ in length by at most 4.
pub proof fn lemma_padding_width_is_longest(lens: Seq<usize>, similar: Seq<bool>)
    ensures
        padding_width_of(lens, similar) matches Some(w) ==> {
            &&& forall|i: int| 0 <= i < lens.len() ==> #[trigger] lens[i] <= w
            &&& exists|i: int| 0 <= i < lens.len() && #[trigger] lens[i] == w
        },
        padding_width_of(lens, similar) is Some <==> (lens.len() >= 2 && forall|k: int|
            0 <= k < lens.len() - 1 ==> similar[k] && lens[k] - lens[k + 1] <= 4 && lens[k + 1] - lens[k] <= 4),
{
    if lens.len() > 0 {
        lemma_longest(lens);
        if let Some(w) = padding_width_of(lens, similar) {
            assert forall|i: int| 0 <= i < lens.len() implies #[trigger] lens[i] <= w by {
                assert(lens[i] <= longest(lens));
            }
        }
    }
    if lens.len() >= 2 && forall|k: int| 0 <= k < lens.len() - 1 ==> similar[k] && lens[k] - lens[k + 1] <= 4
        && lens[k + 1] - lens[k] <= 4 {
        assert forall|k: int| 0 <= k < lens.len() - 1 implies #[trigger] keys_line_up(lens, similar, k) by {}
    }
    if padding_width_of(lens, similar) is Some {
        assert forall|k: int| 0 <= k < lens.len() - 1 implies similar[k] && lens[k] - lens[k + 1] <= 4 && lens[k + 1]
            - lens[k] <= 4 by {
            assert(keys_line_up(lens, similar, k));
        }
    }
}

/// Two adjacent keys line up: they were found similar, and their lengths differ by at most 4
pub open spec fn keys_line_up(lens: Seq<usize>, similar: Seq<bool>, k: int) -> bool {
    similar[k] && lens[k] - lens[k + 1] <= 4 && lens[k + 1] - lens[k] <= 4
}

/// The width that a run of adjacent assignments is padded to: the longest of the lengths of their
/// left sides, when there are at least two and each pair of neighbours lines up (`similar[k]`
/// tells whether the left sides of assignments `k` and `k + 1` are similar); `None` otherwise
pub open spec fn padding_width_of(lens: Seq<usize>, similar: Seq<bool>) -> Option<int> {
    if lens.len() >= 2 && forall|k: int| 0 <= k < lens.len() - 1 ==> #[trigger] keys_line_up(lens, similar, k) {
        Some(longest(lens))
    } else {
        None
    }
}

/// The width to pad a run of adjacent assignments to, from the lengths of their left sides and
/// whether each pair of neighbours is similar
pub fn padding_width(lens: &Vec<usize>, similar: &Vec<bool>) -> (r: Option<usize>)
    requires
        lens@.len() <= similar@.len() + 1,
    ensures
        match r {
            Some(w) => padding_width_of(lens@, similar@) == Some(w as int),
            None => padding_width_of(lens@, similar@) is None,
        },
        r matches Some(w) ==> forall|i: int| 0 <= i < lens@.len() ==> #[trigger] lens@[i] <= w,
        r matches Some(w) ==> exists|i: int| 0 <= i < lens@.len() && #[trigger] lens@[i] == w,
{
    proof {
        lemma_padding_width_is_longest(lens@, similar@);
    }
    if lens.len() < 2 {
        return None;
    }
    let mut m = lens[0];
    let mut k: usize = 0;
    assert(lens@.take(1).drop_last().len() == 0);
    while k + 1 < lens.len()
        invariant
            k < lens@.len(),
            lens@.len() <= similar@.len() + 1,
            forall|j: int| 0 <= j < k ==> #[trigger] keys_line_up(lens@, similar@, j),
            m == longest(lens@.take(k + 1)),
        decreases lens.len() - k,
    {
        let a = lens[k];
        let b = lens[k + 1];
        if !similar[k] || (a > b && a - b > 4) || (b > a && b - a > 4) {
            assert(!keys_line_up(lens@, similar@, k as int));
            return None;
        }
        assert(lens@.take(k + 2).drop_last() =~= lens@.take(k + 1));
        if b > m {
            m = b;
        }
        k = k + 1;
    }
    assert(lens@.take(k + 1) =~= lens@);
    Some(m)
}

} // verus!
