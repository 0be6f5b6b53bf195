//! The rich-text document tree and its flattening to plain text.
//!
//! A document is an ordered list of nodes; a node is a leaf carrying
//! text, a container holding an ordered list of children, or an unknown
//! node that contributes nothing. Flattening concatenates the leaf
//! texts in document order; the top-level items are joined by a single
//! newline, while nested children concatenate with no separator.

use vstd::prelude::*;

verus! {

/// One node of a rich-text document tree. Unknown node kinds without
/// children, text nodes without a text payload, and nodes without a
/// type are all represented as `Empty`: they contribute nothing.
pub enum RichNode {
    Text(String),
    Container(Vec<RichNode>),
    Empty,
}

/// The one failure of the flattener: the tree is deeper than
/// `MAX_DEPTH`, which signals malformed (possibly cyclic) input.
#[derive(Debug, Clone, Copy, PartialEq, Eq, Structural)]
pub enum DocError {
    MalformedDocument,
}

/// Trees nested deeper than this are rejected as malformed.
pub const MAX_DEPTH: u64 = 1000;

/// The plain text of one node: leaf text as it stands, a container's
/// children concatenated in order, nothing for an unknown node.
pub open spec fn node_text(n: RichNode) -> Seq<char>
    decreases n,
{
    match n {
        RichNode::Text(s) => s@,
        RichNode::Container(cs) => cat_texts(cs@),
        RichNode::Empty => Seq::empty(),
    }
}

/// The texts of a list of sibling nodes, concatenated in order with no
/// separator.
pub open spec fn cat_texts(ns: Seq<RichNode>) -> Seq<char>
    decreases ns,
{
    if ns.len() == 0 {
        Seq::empty()
    } else {
        node_text(ns[0]) + cat_texts(ns.subrange(1, ns.len() as int))
    }
}

/// The height of a tree: 1 for a leaf or an unknown node, one more
/// than the deepest child for a container.
pub open spec fn depth(n: RichNode) -> nat
    decreases n,
{
    match n {
        RichNode::Text(_) => 1,
        RichNode::Container(cs) => 1 + max_depth(cs@),
        RichNode::Empty => 1,
    }
}

/// The largest depth among a list of nodes; 0 for the empty list.
pub open spec fn max_depth(ns: Seq<RichNode>) -> nat
    decreases ns,
{
    if ns.len() == 0 {
        0
    } else if depth(ns[0]) >= max_depth(ns.subrange(1, ns.len() as int)) {
        depth(ns[0])
    } else {
        max_depth(ns.subrange(1, ns.len() as int))
    }
}

/// The flattening of a whole document: each top-level item's text, the
/// items joined by a single newline. Only the top level is joined this
/// way; below it, texts concatenate directly.
pub open spec fn flatten_doc(ns: Seq<RichNode>) -> Seq<char>
    decreases ns,
{
    if ns.len() == 0 {
        Seq::empty()
    } else if ns.len() == 1 {
        node_text(ns[0])
    } else {
        node_text(ns[0]) + seq!['\n'] + flatten_doc(ns.subrange(1, ns.len() as int))
    }
}

/// `max_depth` bounds a list exactly when it bounds every member.
pub proof fn lemma_max_depth_le(ns: Seq<RichNode>, d: nat)
    ensures
        (max_depth(ns) <= d) <==> (forall|i: int| 0 <= i < ns.len() ==> depth(ns[i]) <= d),
    decreases ns.len(),
{
    if ns.len() > 0 {
        let rest = ns.subrange(1, ns.len() as int);
        lemma_max_depth_le(rest, d);
        if max_depth(ns) <= d {
            assert forall|i: int| 0 <= i < ns.len() implies depth(ns[i]) <= d by {
                if i >= 1 {
                    assert(ns[i] == rest[i - 1]);
                }
            }
        }
        if forall|i: int| 0 <= i < ns.len() ==> depth(ns[i]) <= d {
            assert forall|j: int| 0 <= j < rest.len() implies depth(rest[j]) <= d by {
                assert(rest[j] == ns[j + 1]);
            }
        }
    }
}

/// Appending one node to a list appends its text to the concatenation.
pub proof fn lemma_cat_texts_push(ns: Seq<RichNode>, n: RichNode)
    ensures
        cat_texts(ns.push(n)) == cat_texts(ns) + node_text(n),
    decreases ns.len(),
{
    if ns.len() == 0 {
        let p = ns.push(n);
        assert(p[0] == n);
        assert(p.subrange(1, 1) =~= Seq::<RichNode>::empty());
        assert(cat_texts(p.subrange(1, 1)) == Seq::<char>::empty());
        assert(cat_texts(p) == node_text(n) + Seq::<char>::empty());
        assert(node_text(n) + Seq::<char>::empty() =~= Seq::<char>::empty() + node_text(n));
    } else {
        let rest = ns.subrange(1, ns.len() as int);
        lemma_cat_texts_push(rest, n);
        assert(ns.push(n)[0] == ns[0]);
        assert(ns.push(n).subrange(1, ns.len() as int + 1) =~= rest.push(n));
        assert(node_text(ns[0]) + (cat_texts(rest) + node_text(n)) =~= (node_text(ns[0])
            + cat_texts(rest)) + node_text(n));
    }
}

/// Appending one top-level item extends the flattening with a newline
/// and that item's text (with no newline when the list was empty).
pub proof fn lemma_flatten_doc_push(ns: Seq<RichNode>, n: RichNode)
    ensures
        ns.len() == 0 ==> flatten_doc(ns.push(n)) == node_text(n),
        ns.len() > 0 ==> flatten_doc(ns.push(n)) == flatten_doc(ns) + seq!['\n'] + node_text(n),
    decreases ns.len(),
{
    if ns.len() == 0 {
        assert(ns.push(n)[0] == n);
    } else if ns.len() == 1 {
        assert(ns.push(n)[0] == ns[0]);
        assert(ns.push(n).subrange(1, 2) =~= seq![n]);
        assert(flatten_doc(seq![n]) == node_text(n));
    } else {
        let rest = ns.subrange(1, ns.len() as int);
        lemma_flatten_doc_push(rest, n);
        assert(ns.push(n)[0] == ns[0]);
        assert(ns.push(n).subrange(1, ns.len() as int + 1) =~= rest.push(n));
        assert(node_text(ns[0]) + seq!['\n'] + (flatten_doc(rest) + seq!['\n'] + node_text(n))
            =~= (node_text(ns[0]) + seq!['\n'] + flatten_doc(rest)) + seq!['\n'] + node_text(n));
    }
}

/// A node with no text and no children flattens to nothing, and an
/// empty document flattens to the empty string.
pub proof fn lemma_flatten_empty(n: RichNode)
    requires
        n is Empty,
    ensures
        node_text(n) == Seq::<char>::empty(),
        flatten_doc(seq![n]) == Seq::<char>::empty(),
        flatten_doc(Seq::<RichNode>::empty()) == Seq::<char>::empty(),
{
}

/// A document holding a single leaf text node flattens to exactly that
/// node's text, with nothing added.
pub proof fn lemma_flatten_single_text(s: String)
    ensures
        node_text(RichNode::Text(s)) == s@,
        flatten_doc(seq![RichNode::Text(s)]) == s@,
{
}

/// Two top-level items are joined by exactly one newline, in order.
pub proof fn lemma_flatten_pair(a: RichNode, b: RichNode)
    ensures
        flatten_doc(seq![a, b]) == node_text(a) + seq!['\n'] + node_text(b),
{
    assert(seq![a, b].subrange(1, 2) =~= seq![b]);
    assert(flatten_doc(seq![b]) == node_text(b));
}

/// A container's children contribute in document order with no added
/// separator; in particular two children concatenate directly.
pub proof fn lemma_container_pair(cs: Vec<RichNode>, a: RichNode, b: RichNode)
    requires
        cs@ == seq![a, b],
    ensures
        node_text(RichNode::Container(cs)) == node_text(a) + node_text(b),
{
    let s = seq![a, b];
    assert(s.subrange(1, 2) =~= seq![b]);
    assert(seq![b].subrange(1, 1) =~= Seq::<RichNode>::empty());
    assert(cat_texts(seq![b].subrange(1, 1)) == Seq::<char>::empty());
    assert(cat_texts(seq![b]) == node_text(b) + Seq::<char>::empty());
    assert(cat_texts(s) == node_text(a) + cat_texts(seq![b]));
    assert(node_text(a) + (node_text(b) + Seq::<char>::empty()) =~= node_text(a) + node_text(b));
}

#[verifier::loop_isolation(false)]
fn visit(n: &RichNode, fuel: u64) -> (r: Result<String, DocError>)
    ensures
        r is Ok <==> depth(*n) <= fuel,
        r matches Ok(s) ==> s@ == node_text(*n),
    decreases fuel,
{
    if fuel == 0 {
        return Err(DocError::MalformedDocument);
    }
    match n {
        RichNode::Text(s) => Ok(s.clone()),
        RichNode::Empty => Ok(String::new()),
        RichNode::Container(cs) => {
            let mut acc = String::new();
            let mut j: usize = 0;
            while j < cs.len()
                invariant
                    j <= cs@.len(),
                    fuel >= 1,
                    acc@ == cat_texts(cs@.subrange(0, j as int)),
                    forall|k: int| 0 <= k < j ==> depth(cs@[k]) <= fuel - 1,
                decreases cs@.len() - j,
            {
                match visit(&cs[j], fuel - 1) {
                    Ok(s) => {
                        acc.append(s.as_str());
                    },
                    Err(e) => {
                        proof {
                            assert(depth(cs@[j as int]) > fuel - 1);
                            lemma_max_depth_le(cs@, (fuel - 1) as nat);
                            assert(max_depth(cs@) > fuel - 1);
                        }
                        return Err(e);
                    },
                }
                proof {
                    lemma_cat_texts_push(cs@.subrange(0, j as int), cs@[j as int]);
                    assert(cs@.subrange(0, j + 1) =~= cs@.subrange(0, j as int).push(cs@[j as int]));
                }
                j = j + 1;
            }
            proof {
                assert(cs@.subrange(0, cs@.len() as int) =~= cs@);
                lemma_max_depth_le(cs@, (fuel - 1) as nat);
            }
            Ok(acc)
        },
    }
}

/// Flatten a whole document: the text of each top-level item, items
/// joined by one newline. Fails exactly when the tree is nested deeper
/// than `MAX_DEPTH`.
#[verifier::loop_isolation(false)]
pub fn flatten(nodes: &Vec<RichNode>) -> (r: Result<String, DocError>)
    ensures
        r is Ok <==> max_depth(nodes@) <= MAX_DEPTH,
        r matches Ok(s) ==> s@ == flatten_doc(nodes@),
        r matches Err(e) ==> e == DocError::MalformedDocument,
{
    let mut acc = String::new();
    let mut i: usize = 0;
    while i < nodes.len()
        invariant
            i <= nodes@.len(),
            acc@ == flatten_doc(nodes@.subrange(0, i as int)),
            forall|k: int| 0 <= k < i ==> depth(nodes@[k]) <= MAX_DEPTH,
        decreases nodes@.len() - i,
    {
        if i > 0 {
            acc.append("\n");
        }
        match visit(&nodes[i], MAX_DEPTH) {
            Ok(s) => {
                acc.append(s.as_str());
            },
            Err(e) => {
                proof {
                    lemma_max_depth_le(nodes@, MAX_DEPTH as nat);
                }
                return Err(e);
            },
        }
        proof {
            reveal_strlit("\n");
            assert("\n"@ =~= seq!['\n']);
            lemma_flatten_doc_push(nodes@.subrange(0, i as int), nodes@[i as int]);
            assert(nodes@.subrange(0, i + 1) =~= nodes@.subrange(0, i as int).push(
                nodes@[i as int],
            ));
        }
        i = i + 1;
    }
    proof {
        assert(nodes@.subrange(0, nodes@.len() as int) =~= nodes@);
        lemma_max_depth_le(nodes@, MAX_DEPTH as nat);
    }
    Ok(acc)
}

/// Flatten a tree rooted at a single node: its leaf texts concatenated
/// in order with no separator. Fails exactly when the tree is nested
/// deeper than `MAX_DEPTH`.
pub fn flatten_node(n: &RichNode) -> (r: Result<String, DocError>)
    ensures
        r is Ok <==> depth(*n) <= MAX_DEPTH,
        r matches Ok(s) ==> s@ == node_text(*n),
        r matches Err(e) ==> e == DocError::MalformedDocument,
{
    visit(n, MAX_DEPTH)
}

} // verus!
